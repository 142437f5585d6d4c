//! Clone dependency repos as siblings for CI builds.
//!
//! The repos that a project depends on are cloned beside it. Versions can then give way to paths,
//! so that the cloned source is used instead of crates.io.

use toml_edit::DocumentMut;
use vstd::prelude::*;
use vstd::string::*;

use crate::ci;
use crate::ci::Edited;
use crate::config::{RepoOverride, SuperworkConfig};
use crate::discover;
use crate::group;
use crate::manifest;
use crate::manifest::Node;
use crate::path;
use crate::text;
use crate::text_map::TextMap;
use crate::value;
use crate::value::Toml;

verus! {

broadcast use {text::lemma_texts_push, text::lemma_pairs_push};

// ── Which repo a crate lies in ──

/// The repo name in a GitHub URL.
pub open spec fn repo_name(url: Seq<char>) -> Option<Seq<char>> {
    match text::after_prefix(url, "https://github.com/"@) {
        Some(rest) => if text::split(rest, '/').len() >= 2 {
            Some(text::split(rest, '/')[1])
        } else {
            None
        },
        None => None,
    }
}

/// A directory without the step up to its parent.
pub open spec fn sibling_name(dir: Seq<char>) -> Seq<char> {
    match text::after_prefix(dir, "../"@) {
        Some(d) => d,
        None => dir,
    }
}

/// The directory that the last override for a URL names.
pub open spec fn overriding_dir(repos: Seq<RepoOverride>, url: Seq<char>) -> Option<Seq<char>>
    decreases repos.len(),
{
    if repos.len() == 0 {
        None
    } else {
        let r = repos.last();
        if r.github is Some && "https://github.com/"@ + r.github.unwrap()@ == url {
            Some(sibling_name(r.dir@))
        } else {
            overriding_dir(repos.drop_last(), url)
        }
    }
}

/// The directory of a crate's repo: the one that an override names, else the repo's name, else
/// the crate's.
pub open spec fn clone_dir(config: SuperworkConfig, name: Seq<char>, url: Seq<char>) -> Seq<char> {
    match overriding_dir(config.repo@, url) {
        Some(d) => d,
        None => match repo_name(url) {
            Some(n) => n,
            None => name,
        },
    }
}

fn repo_name_in(url: &str) -> (r: Option<String>)
    ensures
        text::opt(r) == repo_name(url@),
{
    match text::strip_lead(url, "https://github.com/") {
        Some(rest) => {
            let pieces = text::split_on(rest.as_str(), '/');
            assert(text::texts(pieces@).len() == pieces.len());
            if pieces.len() >= 2 {
                assert(text::texts(pieces@)[1] == pieces@[1]@);
                Some(pieces[1].clone())
            } else {
                None
            }
        },
        None => None,
    }
}

fn sibling_name_of(dir: &str) -> (r: String)
    ensures
        r@ == sibling_name(dir@),
{
    match text::strip_lead(dir, "../") {
        Some(d) => d,
        None => dir.to_string(),
    }
}

fn find_override(repos: &Vec<RepoOverride>, url: &str) -> (r: Option<String>)
    ensures
        text::opt(r) == overriding_dir(repos@, url@),
{
    let mut found: Option<String> = None;
    let mut i: usize = 0;
    assert(repos@.take(0) =~= Seq::<RepoOverride>::empty());
    while i < repos.len()
        invariant
            i <= repos.len(),
            text::opt(found) == overriding_dir(repos@.take(i as int), url@),
        decreases repos.len() - i,
    {
        assert(repos@.take(i + 1).drop_last() =~= repos@.take(i as int));
        if let Some(gh) = &repos[i].github {
            let full = text::cat2("https://github.com/", gh.as_str());
            if text::same(full.as_str(), url) {
                found = Some(sibling_name_of(repos[i].dir.as_str()));
            }
        }
        i += 1;
    }
    assert(repos@.take(i as int) =~= repos@);
    found
}

/// Whether a map gives each patched crate the directory and the URL of its repo.
pub open spec fn is_repo_map(
    map: Map<Seq<char>, (String, String)>,
    config: SuperworkConfig,
) -> bool {
    let urls = config.ci.patch_repos@;
    map.dom() == urls.dom() && forall|k: Seq<char>| #[trigger]
        map.dom().contains(k) ==> map[k].0@ == clone_dir(config, k, urls[k]@) && map[k].1@
            == urls[k]@
}

/// Build a map: crate_name → (sibling_dir_name, git_url).
/// The dir name comes from the repo URL's last segment, which is the
/// actual repo name (matching the directory it clones into).
pub fn build_crate_repo_map(config: &SuperworkConfig) -> (r: TextMap<(String, String)>)
    ensures
        is_repo_map(r@, *config),
{
    let mut map: TextMap<(String, String)> = TextMap::new();
    let urls = &config.ci.patch_repos;
    let ghost ks = urls.keys();
    let n: usize = urls.len();
    let mut i: usize = 0;
    while i < n
        invariant
            i <= n,
            ks == urls.keys(),
            n == ks.len(),
            forall|k: Seq<char>| #[trigger] map@.dom().contains(k) <==> ks.take(i as int).contains(k),
            forall|k: Seq<char>| #[trigger]
                map@.dom().contains(k) ==> map@[k].0@ == clone_dir(*config, k, urls@[k]@)
                    && map@[k].1@ == urls@[k]@,
        decreases n - i,
    {
        let name = urls.key_at(i);
        let url = urls.value_at(i);
        let dir = match find_override(&config.repo, url.as_str()) {
            Some(d) => d,
            None => match repo_name_in(url.as_str()) {
                Some(d) => d,
                None => name.clone(),
            },
        };
        proof {
            assert(ks.take(i + 1) =~= ks.take(i as int).push(name@));
            group::lemma_push_contains(ks.take(i as int), name@);
        }
        map.insert(name.clone(), (dir, url.clone()));
        i += 1;
    }
    assert(ks.take(i as int) =~= ks);
    assert(map@.dom() =~= urls@.dom());
    map
}

// ── Which repos are needed ──

/// The sibling directory that a relative path leads into.
pub open spec fn sibling_dir(p: Seq<char>) -> Option<Seq<char>> {
    let parts = text::split(p, '/');
    if parts.len() >= 2 && parts[0] == ".."@ && parts[1] != ".."@ {
        Some(parts[1])
    } else if parts.len() >= 3 && parts[0] == ".."@ && parts[1] == ".."@ {
        Some(parts[2])
    } else {
        None
    }
}

/// Extract the sibling directory name from a relative path.
pub fn extract_sibling_dir(p: &str) -> (r: Option<String>)
    ensures
        text::opt(r) == sibling_dir(p@),
{
    let parts = text::split_on(p, '/');
    let ghost ps = text::split(p@, '/');
    assert(ps.len() == parts.len());
    if parts.len() < 2 {
        return None;
    }
    assert(ps[0] == parts@[0]@ && ps[1] == parts@[1]@);
    if !text::same(parts[0].as_str(), "..") {
        return None;
    }
    if !text::same(parts[1].as_str(), "..") {
        return Some(parts[1].clone());
    }
    if parts.len() >= 3 {
        assert(ps[2] == parts@[2]@);
        Some(parts[2].clone())
    } else {
        None
    }
}

/// The directory that a dependency needs: the one its path leads into, or that of the repo
/// that the crate lies in.
pub open spec fn row_dir(row: (String, Toml), map: Map<Seq<char>, (String, String)>) -> Option<
    Seq<char>,
> {
    match discover::path_of(row.1) {
        Some(p) => sibling_dir(p),
        None => {
            let name = discover::package_of(row.1, row.0@);
            if map.dom().contains(name) {
                Some(map[name].0@)
            } else {
                None
            }
        },
    }
}

/// Whether a dependency of a list needs a directory.
pub open spec fn rows_need(
    rows: Seq<(String, Toml)>,
    map: Map<Seq<char>, (String, String)>,
    dir: Seq<char>,
) -> bool {
    exists|i: int| 0 <= i < rows.len() && #[trigger] row_dir(rows[i], map) == Some(dir)
}

/// The dependencies that a manifest declares in a section.
pub open spec fn section_rows(doc: Toml, section: Seq<char>) -> Seq<(String, Toml)> {
    match value::rows_of(doc.at(section)) {
        Some(rows) => rows,
        None => Seq::empty(),
    }
}

/// The entries of `[workspace.dependencies]`, none where there is no such table.
pub open spec fn workspace_rows(doc: Toml) -> Seq<(String, Toml)> {
    match discover::workspace_rows(doc) {
        Some(rows) => rows,
        None => Seq::empty(),
    }
}

/// Whether a manifest needs a directory.
pub open spec fn doc_needs(
    doc: Toml,
    map: Map<Seq<char>, (String, String)>,
    dir: Seq<char>,
) -> bool {
    rows_need(section_rows(doc, "dependencies"@), map, dir) || rows_need(
        section_rows(doc, "dev-dependencies"@),
        map,
        dir,
    ) || rows_need(section_rows(doc, "build-dependencies"@), map, dir) || rows_need(
        workspace_rows(doc),
        map,
        dir,
    )
}

/// Whether a manifest's text needs a directory; one that is no TOML needs none.
pub open spec fn manifest_needs(
    content: Seq<char>,
    map: Map<Seq<char>, (String, String)>,
    dir: Seq<char>,
) -> bool {
    match value::parsed_toml(content) {
        Ok(doc) => doc_needs(doc, map, dir),
        Err(_) => false,
    }
}

fn collect_rows(
    rows: Option<&Vec<(String, Toml)>>,
    map: &TextMap<(String, String)>,
    needed: &mut Vec<String>,
)
    requires
        text::strictly_ordered(text::texts(old(needed)@)),
    ensures
        text::strictly_ordered(text::texts(final(needed)@)),
        forall|x: Seq<char>| #[trigger]
            text::texts(final(needed)@).contains(x) <==> text::texts(old(needed)@).contains(x)
                || (rows is Some && rows_need(rows.unwrap()@, map@, x)),
{
    let rows = match rows {
        Some(rows) => rows,
        None => return ,
    };
    let ghost start = text::texts(needed@);
    let mut i: usize = 0;
    while i < rows.len()
        invariant
            i <= rows.len(),
            text::strictly_ordered(text::texts(needed@)),
            forall|x: Seq<char>| #[trigger]
                text::texts(needed@).contains(x) <==> start.contains(x) || exists|j: int|
                    0 <= j < i && #[trigger] row_dir(rows@[j], map@) == Some(x),
        decreases rows.len() - i,
    {
        let ghost sofar = text::texts(needed@);
        let row = &rows[i];
        let dir = match value::as_str(row.1.get("path")) {
            Some(p) => extract_sibling_dir(p.as_str()),
            None => {
                let name = discover::package_name(&row.1, row.0.as_str());
                match map.get(name.as_str()) {
                    Some(repo) => Some(repo.0.clone()),
                    None => None,
                }
            },
        };
        assert(text::opt(dir) == row_dir(rows@[i as int], map@));
        let ghost found = row_dir(rows@[i as int], map@);
        if let Some(dir) = dir {
            group::insert_distinct(needed, dir);
        }
        proof {
            let now = text::texts(needed@);
            assert forall|x: Seq<char>| #[trigger] now.contains(x) <==> start.contains(x)
                || exists|j: int| 0 <= j < i + 1 && #[trigger] row_dir(rows@[j], map@) == Some(
                x,
            ) by {
                if now.contains(x) && !start.contains(x) {
                    if sofar.contains(x) {
                        let j = choose|j: int|
                            0 <= j < i && #[trigger] row_dir(rows@[j], map@) == Some(x);
                        assert(row_dir(rows@[j], map@) == Some(x));
                    } else {
                        assert(row_dir(rows@[i as int], map@) == Some(x));
                    }
                }
                if exists|j: int| 0 <= j < i + 1 && #[trigger] row_dir(rows@[j], map@) == Some(x) {
                    let j = choose|j: int|
                        0 <= j < i + 1 && #[trigger] row_dir(rows@[j], map@) == Some(x);
                    if j < i {
                        assert(sofar.contains(x));
                    }
                }
                if start.contains(x) {
                    assert(sofar.contains(x));
                }
            }
        }
        i += 1;
    }
}

/// Scan a manifest for internal deps and add their sibling dirs to `needed_dirs`.
pub fn collect_needed_dirs(
    content: &str,
    crate_to_repo: &TextMap<(String, String)>,
    needed_dirs: &mut Vec<String>,
)
    requires
        text::strictly_ordered(text::texts(old(needed_dirs)@)),
    ensures
        text::strictly_ordered(text::texts(final(needed_dirs)@)),
        forall|x: Seq<char>| #[trigger]
            text::texts(final(needed_dirs)@).contains(x) <==> text::texts(
                old(needed_dirs)@,
            ).contains(x) || manifest_needs(content@, crate_to_repo@, x),
{
    let doc = match value::parse_toml(content) {
        Ok(doc) => doc,
        Err(_) => return ,
    };
    collect_rows(value::as_table(doc.get("dependencies")), crate_to_repo, needed_dirs);
    collect_rows(value::as_table(doc.get("dev-dependencies")), crate_to_repo, needed_dirs);
    collect_rows(value::as_table(doc.get("build-dependencies")), crate_to_repo, needed_dirs);
    collect_rows(discover::workspace_dep_table(&doc), crate_to_repo, needed_dirs);
}

/// The repos that are needed, and those that were processed.
pub struct Cloning {
    pub needed: Vec<String>,
    pub processed: Vec<String>,
}

/// What becomes of a repo that is needed.
pub enum CloneAction {
    /// Its directory is there.
    Exists,
    /// It is to be cloned from this URL.
    Clone(String),
    /// It has no URL.
    Skip,
}

impl Cloning {
    pub open spec fn wf(self) -> bool {
        text::strictly_ordered(text::texts(self.needed@)) && text::strictly_ordered(
            text::texts(self.processed@),
        )
    }

    pub open spec fn needs(self, dir: Seq<char>) -> bool {
        text::texts(self.needed@).contains(dir)
    }

    pub open spec fn has_processed(self, dir: Seq<char>) -> bool {
        text::texts(self.processed@).contains(dir)
    }

    /// Nothing is needed yet; the project's own directory counts as processed.
    pub fn begin(cwd_name: Option<&str>) -> (r: Cloning)
        ensures
            r.wf(),
            forall|d: Seq<char>| !(#[trigger] r.needs(d)),
            forall|d: Seq<char>| #[trigger]
                r.has_processed(d) <==> cwd_name is Some && cwd_name.unwrap()@ == d,
    {
        let needed: Vec<String> = Vec::new();
        let mut processed: Vec<String> = Vec::new();
        assert(text::texts(needed@) =~= Seq::<Seq<char>>::empty());
        assert(text::texts(processed@) =~= Seq::<Seq<char>>::empty());
        if let Some(name) = cwd_name {
            group::insert_distinct(&mut processed, name.to_string());
        }
        Cloning { needed, processed }
    }

    /// The directories that are needed and not processed yet, in order.
    pub fn pending(&self) -> (r: Vec<String>)
        requires
            self.wf(),
        ensures
            text::strictly_ordered(text::texts(r@)),
            forall|d: Seq<char>| #[trigger]
                text::texts(r@).contains(d) <==> self.needs(d) && !self.has_processed(d),
    {
        let ghost ns = text::texts(self.needed@);
        let ghost ps = text::texts(self.processed@);
        let mut out: Vec<String> = Vec::new();
        let mut i: usize = 0;
        assert(text::texts(out@) =~= Seq::<Seq<char>>::empty());
        while i < self.needed.len()
            invariant
                i <= self.needed.len(),
                ns == text::texts(self.needed@),
                ps == text::texts(self.processed@),
                text::strictly_ordered(text::texts(out@)),
                forall|x: Seq<char>| #[trigger]
                    text::texts(out@).contains(x) <==> ns.take(i as int).contains(x)
                        && !ps.contains(x),
            decreases self.needed.len() - i,
        {
            let ghost t = self.needed@[i as int]@;
            proof {
                assert(ns.take(i + 1) =~= ns.take(i as int).push(t));
                group::lemma_push_contains(ns.take(i as int), t);
                text::lemma_lists_texts(self.processed@, t);
            }
            if !text::holds(&self.processed, self.needed[i].as_str()) {
                group::insert_distinct(&mut out, self.needed[i].clone());
            }
            i += 1;
        }
        assert(ns.take(i as int) =~= ns);
        out
    }

    /// Count a directory as processed.
    pub fn mark(&mut self, dir: &str)
        requires
            old(self).wf(),
        ensures
            final(self).wf(),
            final(self).needed == old(self).needed,
            forall|d: Seq<char>| #[trigger]
                final(self).has_processed(d) <==> old(self).has_processed(d) || d == dir@,
    {
        group::insert_distinct(&mut self.processed, dir.to_string());
    }

    /// Add what a manifest needs.
    pub fn collect(&mut self, content: &str, crate_to_repo: &TextMap<(String, String)>)
        requires
            old(self).wf(),
        ensures
            final(self).wf(),
            final(self).processed == old(self).processed,
            forall|d: Seq<char>| #[trigger]
                final(self).needs(d) <==> old(self).needs(d) || manifest_needs(
                    content@,
                    crate_to_repo@,
                    d,
                ),
    {
        collect_needed_dirs(content, crate_to_repo, &mut self.needed);
    }
}

/// Whether each directory of a list is needed by the one before it.
pub open spec fn is_chain(
    needs_of: Map<Seq<char>, Set<Seq<char>>>,
    chain: Seq<Seq<char>>,
) -> bool {
    forall|i: int| 0 < i < chain.len() ==> #[trigger] follows(needs_of, chain, i)
}

/// Whether the directory at place `i` is needed by the one before it.
pub open spec fn follows(
    needs_of: Map<Seq<char>, Set<Seq<char>>>,
    chain: Seq<Seq<char>>,
    i: int,
) -> bool {
    needs_of.dom().contains(chain[i - 1]) && needs_of[chain[i - 1]].contains(chain[i])
}

/// Once nothing is pending the closure is resolved: with what each processed directory needs
/// taken up, all that the project needs by way of others was processed.
pub proof fn law_closure_is_resolved(
    state: Cloning,
    needs_of: Map<Seq<char>, Set<Seq<char>>>,
    chain: Seq<Seq<char>>,
)
    requires
        chain.len() > 0,
        state.has_processed(chain[0]),
        is_chain(needs_of, chain),
        forall|d: Seq<char>| #[trigger] state.needs(d) ==> state.has_processed(d),
        forall|d: Seq<char>, x: Seq<char>|
            state.has_processed(d) && needs_of.dom().contains(d) && #[trigger] needs_of[d].contains(
                x,
            ) ==> state.needs(x),
    ensures
        state.has_processed(chain.last()),
    decreases chain.len(),
{
    if chain.len() > 1 {
        let before = chain.drop_last();
        assert forall|i: int| 0 < i < before.len() implies #[trigger] follows(
            needs_of,
            before,
            i,
        ) by {
            assert(follows(needs_of, chain, i));
        }
        law_closure_is_resolved(state, needs_of, before);
        assert(follows(needs_of, chain, chain.len() - 1));
    }
}

/// Decide what becomes of a repo that is needed.
pub fn clone_action(exists_there: bool, dir: &str, config: &SuperworkConfig) -> (r: CloneAction)
    ensures
        match r {
            CloneAction::Exists => exists_there,
            CloneAction::Clone(u) => !exists_there && repo_url(dir@, *config) == Some(u@),
            CloneAction::Skip => !exists_there && repo_url(dir@, *config) is None,
        },
{
    if exists_there {
        return CloneAction::Exists;
    }
    match find_repo_url(dir, config) {
        Some(url) => CloneAction::Clone(url),
        None => CloneAction::Skip,
    }
}

// ── Where a repo is cloned from ──

/// The first override for a directory from `i` on that settles its URL.
pub open spec fn settling(repos: Seq<RepoOverride>, i: int, dir: Seq<char>) -> Option<int>
    decreases repos.len() - i,
{
    if i >= repos.len() {
        None
    } else if sibling_name(repos[i].dir@) == dir && (repos[i].no_remote || repos[i].github
        is Some) {
        Some(i)
    } else {
        settling(repos, i + 1, dir)
    }
}

/// The first URL from `i` on whose repo has a name.
pub open spec fn url_named(urls: TextMap<String>, i: int, dir: Seq<char>) -> Option<Seq<char>>
    decreases urls.keys().len() - i,
{
    if i >= urls.keys().len() {
        None
    } else if repo_name(urls.values()[i]@) == Some(dir) {
        Some(urls.values()[i]@)
    } else {
        url_named(urls, i + 1, dir)
    }
}

/// The git URL of a sibling directory: that of its override, else that of a patched repo of its
/// name, else the convention.
pub open spec fn repo_url(dir: Seq<char>, config: SuperworkConfig) -> Option<Seq<char>> {
    match settling(config.repo@, 0, dir) {
        Some(i) => if config.repo@[i].no_remote {
            None
        } else {
            Some("https://github.com/"@ + config.repo@[i].github.unwrap()@)
        },
        None => match url_named(config.ci.patch_repos, 0, dir) {
            Some(u) => Some(u),
            None => Some(
                "https://github.com/"@ + config.described().default_github_org@ + "/"@ + dir,
            ),
        },
    }
}

/// Find the git URL for a sibling directory name.
pub fn find_repo_url(dir: &str, config: &SuperworkConfig) -> (r: Option<String>)
    ensures
        text::opt(r) == repo_url(dir@, *config),
{
    let mut i: usize = 0;
    while i < config.repo.len()
        invariant
            i <= config.repo.len(),
            settling(config.repo@, i as int, dir@) == settling(config.repo@, 0, dir@),
        decreases config.repo.len() - i,
    {
        let entry = &config.repo[i];
        if text::same(sibling_name_of(entry.dir.as_str()).as_str(), dir) {
            if entry.no_remote {
                return None;
            }
            if let Some(gh) = &entry.github {
                return Some(text::cat2("https://github.com/", gh.as_str()));
            }
        }
        i += 1;
    }
    let urls = &config.ci.patch_repos;
    let n: usize = urls.len();
    let mut j: usize = 0;
    while j < n
        invariant
            j <= n,
            n == urls.keys().len(),
            url_named(*urls, j as int, dir@) == url_named(*urls, 0, dir@),
        decreases n - j,
    {
        let url = urls.value_at(j);
        if let Some(name) = repo_name_in(url.as_str()) {
            if text::same(name.as_str(), dir) {
                return Some(url.clone());
            }
        }
        j += 1;
    }
    Some(
        text::cat4("https://github.com/", config.meta().default_github_org.as_str(), "/", dir),
    )
}

// ── Where the manifests of a repo lie ──

/// Where workspace members are looked for.
pub enum MemberPlace {
    /// In this directory.
    At(String),
    /// In the directories within this one.
    Within(String),
}

/// What a `MemberPlace` says.
#[verifier::ext_equal]
pub enum PlaceModel {
    At(Seq<char>),
    Within(Seq<char>),
}

impl MemberPlace {
    pub open spec fn model(self) -> PlaceModel {
        match self {
            MemberPlace::At(d) => PlaceModel::At(d@),
            MemberPlace::Within(d) => PlaceModel::Within(d@),
        }
    }
}

pub open spec fn place_models(v: Seq<MemberPlace>) -> Seq<PlaceModel> {
    v.map_values(|p: MemberPlace| p.model())
}

/// The text before the first star of a pattern.
pub open spec fn before_star(pattern: Seq<char>) -> Seq<char> {
    text::upto(pattern, '*', '*')
}

/// Where the manifests of the members of a list are looked for: in the directory of that name,
/// and for a pattern also within the directory before its star.
pub open spec fn manifest_places(members: Seq<Seq<char>>) -> Seq<PlaceModel>
    decreases members.len(),
{
    if members.len() == 0 {
        Seq::empty()
    } else {
        let m = members.last();
        let before = manifest_places(members.drop_last()).push(PlaceModel::At(m));
        if m.contains('*') {
            before.push(PlaceModel::Within(before_star(m)))
        } else {
            before
        }
    }
}

/// Where a crate of a workspace is looked for: in each member's directory, or for a pattern
/// within the directory before its star.
pub open spec fn crate_places(members: Seq<Seq<char>>) -> Seq<PlaceModel> {
    members.map_values(
        |m: Seq<char>|
            if m.contains('*') {
                PlaceModel::Within(before_star(m))
            } else {
                PlaceModel::At(m)
            },
    )
}

/// The members that a manifest's text names; one that is no TOML names none.
pub open spec fn members_in(content: Seq<char>) -> Seq<Seq<char>> {
    match value::parsed_toml(content) {
        Ok(doc) => discover::member_patterns(doc),
        Err(_) => Seq::empty(),
    }
}

fn read_members(content: &str) -> (r: Vec<String>)
    ensures
        text::texts(r@) == members_in(content@),
{
    match value::parse_toml(content) {
        Ok(doc) => discover::workspace_members(&doc),
        Err(_) => {
            let none: Vec<String> = Vec::new();
            assert(text::texts(none@) =~= Seq::<Seq<char>>::empty());
            none
        },
    }
}

/// Find where the manifests of a repo lie besides its own, given the contents of that.
pub fn find_manifests(content: &str) -> (r: Vec<MemberPlace>)
    ensures
        place_models(r@) == manifest_places(members_in(content@)),
{
    let members = read_members(content);
    let ghost ms = members_in(content@);
    let mut out: Vec<MemberPlace> = Vec::new();
    let mut i: usize = 0;
    assert(ms.take(0) =~= Seq::<Seq<char>>::empty());
    assert(place_models(out@) =~= Seq::<PlaceModel>::empty());
    assert(ms.len() == members.len());
    while i < members.len()
        invariant
            i <= members.len(),
            ms == text::texts(members@),
            place_models(out@) == manifest_places(ms.take(i as int)),
        decreases members.len() - i,
    {
        let ghost m = members@[i as int]@;
        assert(ms.take(i + 1).drop_last() =~= ms.take(i as int));
        assert(ms.take(i + 1).last() == m);
        let ghost sofar = place_models(out@);
        out.push(MemberPlace::At(members[i].clone()));
        assert(place_models(out@) =~= sofar.push(PlaceModel::At(m)));
        if text::contains_char(members[i].as_str(), '*') {
            let ghost sofar = place_models(out@);
            out.push(MemberPlace::Within(text::upto_either(members[i].as_str(), '*', '*')));
            assert(place_models(out@) =~= sofar.push(PlaceModel::Within(before_star(m))));
        }
        i += 1;
    }
    assert(ms.take(i as int) =~= ms);
    out
}

/// Where a crate lies in a repo.
pub enum CratePlaces {
    /// At the root.
    Root,
    /// In one of these places, the first that has it.
    Among(Vec<MemberPlace>),
}

/// Find where a crate lies in a repo, given the contents of the repo's manifest.
pub fn find_crate(content: &str, crate_name: &str) -> (r: CratePlaces)
    ensures
        match r {
            CratePlaces::Root => ci::is_package(content@, crate_name@),
            CratePlaces::Among(v) => !ci::is_package(content@, crate_name@) && place_models(v@)
                == crate_places(members_in(content@)),
        },
{
    if ci::names_package(content, crate_name) {
        return CratePlaces::Root;
    }
    let members = read_members(content);
    let ghost all = crate_places(members_in(content@));
    let mut out: Vec<MemberPlace> = Vec::new();
    let mut i: usize = 0;
    assert(place_models(out@) =~= all.take(0));
    while i < members.len()
        invariant
            i <= members.len(),
            all == crate_places(text::texts(members@)),
            place_models(out@) == all.take(i as int),
        decreases members.len() - i,
    {
        let member = members[i].as_str();
        let ghost sofar = place_models(out@);
        let place = if text::contains_char(member, '*') {
            MemberPlace::Within(text::upto_either(member, '*', '*'))
        } else {
            MemberPlace::At(members[i].clone())
        };
        let ghost m = place.model();
        assert(text::texts(members@)[i as int] == member@);
        assert(all[i as int] == m);
        out.push(place);
        assert(place_models(out@) =~= sofar.push(m));
        assert(all.take(i + 1) =~= sofar.push(m));
        i += 1;
    }
    assert(all.take(i as int) =~= all);
    CratePlaces::Among(out)
}

/// The directory of a sibling, as seen from a manifest: beside the manifest's own.
pub open spec fn beside(manifest_path: Seq<char>, sibling: Seq<char>) -> Option<Seq<char>> {
    match path::parent(manifest_path) {
        Some(dir) => match path::parent(dir) {
            Some(up) => Some(path::joined(up, sibling)),
            None => None,
        },
        None => None,
    }
}

/// The directory in which a manifest's sibling is looked for.
pub fn sibling_path(manifest_path: &str, sibling_dir: &str) -> (r: Option<String>)
    ensures
        text::opt(r) == beside(manifest_path@, sibling_dir@),
{
    match path::parent_of(manifest_path) {
        Some(dir) => match path::parent_of(dir.as_str()) {
            Some(up) => Some(path::join_path(up.as_str(), sibling_dir)),
            None => None,
        },
        None => None,
    }
}

// ── Edits ──

/// Whether a dependency of a section is written with a path.
pub open spec fn written_path(doc: Toml, section: Seq<char>, name: Seq<char>) -> bool {
    value::step(value::step(doc.at(section), name), "path"@) is Some
}

/// A document with a path and any version for a dependency, where that changes its path.
pub open spec fn pathed(e: Edited, section: Seq<char>, name: Seq<char>, p: Seq<char>) -> Edited {
    let set = manifest::path_set(e.node, section, name, p);
    if set.1 {
        Edited {
            node: manifest::version_set(set.0, section, name, "*"@).0,
            changes: e.changes + 1,
        }
    } else {
        e
    }
}

/// A document with a path for a dependency that was written without one.
pub open spec fn override_added(
    e: Edited,
    raw: Toml,
    section: Seq<char>,
    name: Seq<char>,
    found: Map<Seq<char>, String>,
) -> Edited {
    if !written_path(raw, section, name) && found.dom().contains(name) {
        pathed(e, section, name, found[name]@)
    } else {
        e
    }
}

/// A document with paths for the dependencies of a list in one section.
pub open spec fn section_overridden(
    e: Edited,
    raw: Toml,
    section: Seq<char>,
    names: Seq<Seq<char>>,
    found: Map<Seq<char>, String>,
) -> Edited
    decreases names.len(),
{
    if names.len() == 0 {
        e
    } else {
        override_added(
            section_overridden(e, raw, section, names.drop_last(), found),
            raw,
            section,
            names.last(),
            found,
        )
    }
}

/// A manifest with paths for the crates of a list.
pub open spec fn overridden(
    node: Node,
    raw: Toml,
    names: Seq<Seq<char>>,
    found: Map<Seq<char>, String>,
) -> Edited {
    let one = section_overridden(ci::unedited(node), raw, "dependencies"@, names, found);
    let two = section_overridden(one, raw, "dev-dependencies"@, names, found);
    section_overridden(two, raw, "build-dependencies"@, names, found)
}

/// The keys of a list of entries.
pub open spec fn row_keys(rows: Seq<(String, Toml)>) -> Seq<Seq<char>> {
    rows.map_values(|r: (String, Toml)| r.0@)
}

/// A cloned repo's manifest with paths for all its dependencies whose place was found, those of
/// the workspace too.
pub open spec fn repo_overridden(
    node: Node,
    raw: Toml,
    found: Map<Seq<char>, String>,
) -> Edited {
    let one = section_overridden(
        ci::unedited(node),
        raw,
        "dependencies"@,
        row_keys(section_rows(raw, "dependencies"@)),
        found,
    );
    let two = section_overridden(
        one,
        raw,
        "dev-dependencies"@,
        row_keys(section_rows(raw, "dev-dependencies"@)),
        found,
    );
    let three = section_overridden(
        two,
        raw,
        "build-dependencies"@,
        row_keys(section_rows(raw, "build-dependencies"@)),
        found,
    );
    three.after_many(
        manifest::workspace_paths_added(three.node, found),
        manifest::workspace_paths_taken(three.node, found).len(),
    )
}

fn override_section(
    doc: &mut DocumentMut,
    raw: &Toml,
    section: &str,
    names: &Vec<String>,
    found: &TextMap<String>,
    changes: usize,
    e: Ghost<Edited>,
) -> (r: usize)
    requires
        e@.node == manifest::doc_node(*old(doc)),
        changes == ci::capped(e@.changes),
    ensures
        manifest::keeps_root(manifest::doc_node(*old(doc)), manifest::doc_node(*final(doc))),
        manifest::doc_node(*final(doc)) == section_overridden(
            e@,
            *raw,
            section@,
            text::texts(names@),
            found@,
        ).node,
        r == ci::capped(
            section_overridden(e@, *raw, section@, text::texts(names@), found@).changes,
        ),
{
    let ghost ns = text::texts(names@);
    let mut changes = changes;
    let mut i: usize = 0;
    assert(ns.take(0) =~= Seq::<Seq<char>>::empty());
    while i < names.len()
        invariant
            i <= names.len(),
            ns == text::texts(names@),
            manifest::keeps_root(manifest::doc_node(*old(doc)), manifest::doc_node(*doc)),
            manifest::doc_node(*doc) == section_overridden(
                e@,
                *raw,
                section@,
                ns.take(i as int),
                found@,
            ).node,
            changes == ci::capped(
                section_overridden(e@, *raw, section@, ns.take(i as int), found@).changes,
            ),
        decreases names.len() - i,
    {
        assert(ns.take(i + 1).drop_last() =~= ns.take(i as int));
        assert(ns.take(i + 1).last() == names@[i as int]@);
        let name = names[i].as_str();
        let dep = value::step_in(raw.get(section), name);
        if value::step_in(dep, "path").is_none() {
            if let Some(p) = found.get(name) {
                if manifest::set_dep_path(doc, section, name, p.as_str()) {
                    // Any version matches the cloned code.
                    manifest::set_dep_version(doc, section, name, "*");
                    changes = changes.saturating_add(1);
                }
            }
        }
        i += 1;
    }
    assert(ns.take(i as int) =~= ns);
    changes
}

/// Add paths to the deps of the project that reference crates of a list, given where those were
/// found. Returns the number of changes.
pub fn add_path_overrides(
    doc: &mut DocumentMut,
    raw: &Toml,
    crates_in_dir: &Vec<String>,
    found: &TextMap<String>,
) -> (r: usize)
    ensures
        manifest::keeps_root(manifest::doc_node(*old(doc)), manifest::doc_node(*final(doc))),
        manifest::doc_node(*final(doc)) == overridden(
            manifest::doc_node(*old(doc)),
            *raw,
            text::texts(crates_in_dir@),
            found@,
        ).node,
        r == ci::capped(
            overridden(
                manifest::doc_node(*old(doc)),
                *raw,
                text::texts(crates_in_dir@),
                found@,
            ).changes,
        ),
{
    let ghost ns = text::texts(crates_in_dir@);
    let ghost zero = ci::unedited(manifest::doc_node(*old(doc)));
    let ghost one = section_overridden(zero, *raw, "dependencies"@, ns, found@);
    let ghost two = section_overridden(one, *raw, "dev-dependencies"@, ns, found@);
    let n: usize = override_section(
        doc,
        raw,
        "dependencies",
        crates_in_dir,
        found,
        0,
        Ghost(zero),
    );
    let n: usize = override_section(
        doc,
        raw,
        "dev-dependencies",
        crates_in_dir,
        found,
        n,
        Ghost(one),
    );
    override_section(doc, raw, "build-dependencies", crates_in_dir, found, n, Ghost(two))
}

fn keys_in(raw: &Toml, section: &str) -> (r: Vec<String>)
    ensures
        text::texts(r@) == row_keys(section_rows(*raw, section@)),
{
    let mut out: Vec<String> = Vec::new();
    let ghost all = row_keys(section_rows(*raw, section@));
    match value::as_table(raw.get(section)) {
        None => {
            assert(text::texts(out@) =~= all);
        },
        Some(rows) => {
            let mut i: usize = 0;
            assert(text::texts(out@) =~= all.take(0));
            while i < rows.len()
                invariant
                    i <= rows.len(),
                    all == row_keys(rows@),
                    text::texts(out@) == all.take(i as int),
                decreases rows.len() - i,
            {
                out.push(rows[i].0.clone());
                assert(all.take(i + 1) =~= all.take(i as int).push(rows@[i as int].0@));
                i += 1;
            }
            assert(all.take(i as int) =~= all);
        },
    }
    out
}

/// Add path overrides to a cloned repo's manifest, pointing to other cloned siblings, given where
/// their crates were found. Returns the number of changes.
pub fn add_path_overrides_to_repo(doc: &mut DocumentMut, raw: &Toml, found: &TextMap<String>) -> (r:
    usize)
    ensures
        manifest::keeps_root(manifest::doc_node(*old(doc)), manifest::doc_node(*final(doc))),
        manifest::doc_node(*final(doc)) == repo_overridden(
            manifest::doc_node(*old(doc)),
            *raw,
            found@,
        ).node,
        r == ci::capped(
            repo_overridden(manifest::doc_node(*old(doc)), *raw, found@).changes,
        ),
{
    let ghost zero = ci::unedited(manifest::doc_node(*old(doc)));
    let ghost one = section_overridden(
        zero,
        *raw,
        "dependencies"@,
        row_keys(section_rows(*raw, "dependencies"@)),
        found@,
    );
    let ghost two = section_overridden(
        one,
        *raw,
        "dev-dependencies"@,
        row_keys(section_rows(*raw, "dev-dependencies"@)),
        found@,
    );
    let keys = keys_in(raw, "dependencies");
    let n: usize = override_section(doc, raw, "dependencies", &keys, found, 0, Ghost(zero));
    let keys = keys_in(raw, "dev-dependencies");
    let n: usize = override_section(doc, raw, "dev-dependencies", &keys, found, n, Ghost(one));
    let keys = keys_in(raw, "build-dependencies");
    let n: usize = override_section(doc, raw, "build-dependencies", &keys, found, n, Ghost(two));
    let m: usize = manifest::add_workspace_paths(doc, found);
    n.saturating_add(m)
}

/// The crates whose repo lies in a directory of a list, in order.
pub fn crates_in_dirs(crate_to_repo: &TextMap<(String, String)>, dirs: &Vec<String>) -> (r: Vec<
    String,
>)
    ensures
        text::strictly_ordered(text::texts(r@)),
        forall|x: Seq<char>| #[trigger]
            text::texts(r@).contains(x) <==> crate_to_repo@.dom().contains(x) && text::texts(
                dirs@,
            ).contains(crate_to_repo@[x].0@),
{
    let ghost ks = crate_to_repo.keys();
    let ghost ds = text::texts(dirs@);
    let n: usize = crate_to_repo.len();
    let mut out: Vec<String> = Vec::new();
    let mut i: usize = 0;
    assert(text::texts(out@) =~= Seq::<Seq<char>>::empty());
    while i < n
        invariant
            i <= n,
            ks == crate_to_repo.keys(),
            n == ks.len(),
            ds == text::texts(dirs@),
            text::strictly_ordered(text::texts(out@)),
            forall|x: Seq<char>| #[trigger]
                text::texts(out@).contains(x) <==> ks.take(i as int).contains(x) && ds.contains(
                    crate_to_repo@[x].0@,
                ),
        decreases n - i,
    {
        let name = crate_to_repo.key_at(i);
        let repo = crate_to_repo.value_at(i);
        proof {
            assert(ks.take(i + 1) =~= ks.take(i as int).push(name@));
            group::lemma_push_contains(ks.take(i as int), name@);
            text::lemma_lists_texts(dirs@, repo.0@);
        }
        if text::holds(dirs, repo.0.as_str()) {
            group::insert_distinct(&mut out, name.clone());
        }
        i += 1;
    }
    assert(ks.take(i as int) =~= ks);
    assert forall|x: Seq<char>| #[trigger] text::texts(out@).contains(
        x,
    ) <==> crate_to_repo@.dom().contains(x) && ds.contains(crate_to_repo@[x].0@) by {
        assert(crate_to_repo.has(x) == ks.contains(x));
    }
    out
}

/// The dependencies that a project's settings delete.
pub open spec fn delete_list(doc: Toml, base: Seq<char>) -> Option<Seq<Toml>> {
    value::items_of(
        value::step(
            value::step(
                value::step(value::step(doc.at(base), "metadata"@), "superwork"@),
                "ci"@,
            ),
            "delete"@,
        ),
    )
}

/// The dependencies that a manifest's text says are deleted in CI: those listed under the
/// package, else those listed under the workspace.
pub open spec fn deleted_deps(content: Seq<char>) -> Seq<Seq<char>> {
    match value::parsed_toml(content) {
        Err(_) => Seq::empty(),
        Ok(doc) => match delete_list(doc, "package"@) {
            Some(a) => value::texts_among(a),
            None => match delete_list(doc, "workspace"@) {
                Some(a) => value::texts_among(a),
                None => Seq::empty(),
            },
        },
    }
}

fn list_under<'a>(doc: &'a Toml, base: &str) -> (r: Option<&'a Vec<Toml>>)
    ensures
        match r {
            Some(a) => delete_list(*doc, base@) == Some(a@),
            None => delete_list(*doc, base@) is None,
        },
{
    let metadata = value::step_in(doc.get(base), "metadata");
    let ci = value::step_in(value::step_in(metadata, "superwork"), "ci");
    value::as_array(value::step_in(ci, "delete"))
}

/// Read the delete list from [package.metadata.superwork.ci] or [workspace.metadata.superwork.ci].
pub fn read_delete_list(content: &str) -> (r: Vec<String>)
    ensures
        text::texts(r@) == deleted_deps(content@),
{
    if let Ok(doc) = value::parse_toml(content) {
        if let Some(list) = list_under(&doc, "package") {
            return value::texts_in(list);
        }
        if let Some(list) = list_under(&doc, "workspace") {
            return value::texts_in(list);
        }
    }
    let none: Vec<String> = Vec::new();
    assert(text::texts(none@) =~= Seq::<Seq<char>>::empty());
    none
}

/// A manifest without the dependencies of a list, and without what `[features]` says of them.
pub open spec fn deps_purged(node: Node, deps: Seq<Seq<char>>) -> Edited
    decreases deps.len(),
{
    if deps.len() == 0 {
        ci::unedited(node)
    } else {
        let gone = ci::deleted_in(deps_purged(node, deps.drop_last()), deps.last(), 3);
        gone.after_many(
            manifest::features_stripped(gone.node, deps.last()),
            manifest::referring_features(gone.node, deps.last()).len(),
        )
    }
}

/// Delete deps from a manifest, including feature references. Returns the number of changes.
pub fn delete_deps_from_manifest(doc: &mut DocumentMut, deps_to_delete: &Vec<String>) -> (r: usize)
    ensures
        manifest::keeps_root(manifest::doc_node(*old(doc)), manifest::doc_node(*final(doc))),
        manifest::doc_node(*final(doc)) == deps_purged(
            manifest::doc_node(*old(doc)),
            text::texts(deps_to_delete@),
        ).node,
        r == ci::capped(
            deps_purged(manifest::doc_node(*old(doc)), text::texts(deps_to_delete@)).changes,
        ),
{
    let ghost start = manifest::doc_node(*old(doc));
    let ghost ds = text::texts(deps_to_delete@);
    let mut changes: usize = 0;
    let mut i: usize = 0;
    assert(ds.take(0) =~= Seq::<Seq<char>>::empty());
    while i < deps_to_delete.len()
        invariant
            i <= deps_to_delete.len(),
            ds == text::texts(deps_to_delete@),
            manifest::keeps_root(manifest::doc_node(*old(doc)), manifest::doc_node(*doc)),
            manifest::doc_node(*doc) == deps_purged(start, ds.take(i as int)).node,
            changes == ci::capped(deps_purged(start, ds.take(i as int)).changes),
        decreases deps_to_delete.len() - i,
    {
        let ghost e = deps_purged(start, ds.take(i as int));
        assert(ds.take(i + 1).drop_last() =~= ds.take(i as int));
        assert(ds.take(i + 1).last() == deps_to_delete@[i as int]@);
        let dep = deps_to_delete[i].as_str();
        changes = ci::delete_deps_in(doc, dep, changes, Ghost(e));
        let n: usize = manifest::strip_dep_from_features(doc, dep);
        changes = changes.saturating_add(n);
        i += 1;
    }
    assert(ds.take(i as int) =~= ds);
    changes
}

/// Whether a dependency is written with a path and a version.
pub open spec fn is_dual(v: Toml) -> bool {
    v.at("path"@) is Some && v.at("version"@) is Some
}

/// A document with any version for the dual-specified dependencies of a list.
pub open spec fn rows_wildcarded(
    e: Edited,
    section: Seq<char>,
    rows: Seq<(String, Toml)>,
) -> Edited
    decreases rows.len(),
{
    if rows.len() == 0 {
        e
    } else {
        let before = rows_wildcarded(e, section, rows.drop_last());
        if is_dual(rows.last().1) {
            before.after(manifest::version_set(before.node, section, rows.last().0@, "*"@))
        } else {
            before
        }
    }
}

/// A document with any version for the dual-specified entries of `[workspace.dependencies]`.
pub open spec fn workspace_wildcarded(e: Edited, rows: Seq<(String, Toml)>) -> Edited
    decreases rows.len(),
{
    if rows.len() == 0 {
        e
    } else {
        let before = workspace_wildcarded(e, rows.drop_last());
        if is_dual(rows.last().1) {
            before.after(
                manifest::workspace_dep_version_set(before.node, rows.last().0@, "*"@),
            )
        } else {
            before
        }
    }
}

/// A manifest with any version for all dual-specified dependencies.
pub open spec fn wildcarded(node: Node, raw: Toml) -> Edited {
    let one = rows_wildcarded(
        ci::unedited(node),
        "dependencies"@,
        section_rows(raw, "dependencies"@),
    );
    let two = rows_wildcarded(one, "dev-dependencies"@, section_rows(raw, "dev-dependencies"@));
    let three = rows_wildcarded(
        two,
        "build-dependencies"@,
        section_rows(raw, "build-dependencies"@),
    );
    workspace_wildcarded(three, workspace_rows(raw))
}

fn has_both(v: &Toml) -> (r: bool)
    ensures
        r == is_dual(*v),
{
    v.get("path").is_some() && v.get("version").is_some()
}

fn wildcard_section(
    doc: &mut DocumentMut,
    raw: &Toml,
    section: &str,
    changes: usize,
    e: Ghost<Edited>,
) -> (r: usize)
    requires
        e@.node == manifest::doc_node(*old(doc)),
        changes == ci::capped(e@.changes),
    ensures
        manifest::keeps_root(manifest::doc_node(*old(doc)), manifest::doc_node(*final(doc))),
        manifest::doc_node(*final(doc)) == rows_wildcarded(
            e@,
            section@,
            section_rows(*raw, section@),
        ).node,
        r == ci::capped(
            rows_wildcarded(e@, section@, section_rows(*raw, section@)).changes,
        ),
{
    let mut changes = changes;
    if let Some(rows) = value::as_table(raw.get(section)) {
        let mut i: usize = 0;
        assert(rows@.take(0) =~= Seq::<(String, Toml)>::empty());
        while i < rows.len()
            invariant
                i <= rows.len(),
                manifest::keeps_root(manifest::doc_node(*old(doc)), manifest::doc_node(*doc)),
                manifest::doc_node(*doc) == rows_wildcarded(
                    e@,
                    section@,
                    rows@.take(i as int),
                ).node,
                changes == ci::capped(
                    rows_wildcarded(e@, section@, rows@.take(i as int)).changes,
                ),
            decreases rows.len() - i,
        {
            assert(rows@.take(i + 1).drop_last() =~= rows@.take(i as int));
            if has_both(&rows[i].1) {
                if manifest::set_dep_version(doc, section, rows[i].0.as_str(), "*") {
                    changes = changes.saturating_add(1);
                }
            }
            i += 1;
        }
        assert(rows@.take(i as int) =~= rows@);
    }
    changes
}

/// Set version = "*" on all deps that have a path key and a version.
/// This prevents version mismatch errors between Cargo.toml declarations
/// and actual cloned repo versions. Returns the number of changes.
pub fn wildcard_path_dep_versions(doc: &mut DocumentMut, raw: &Toml) -> (r: usize)
    ensures
        manifest::keeps_root(manifest::doc_node(*old(doc)), manifest::doc_node(*final(doc))),
        manifest::doc_node(*final(doc)) == wildcarded(manifest::doc_node(*old(doc)), *raw).node,
        r == ci::capped(wildcarded(manifest::doc_node(*old(doc)), *raw).changes),
{
    let ghost zero = ci::unedited(manifest::doc_node(*old(doc)));
    let ghost one = rows_wildcarded(zero, "dependencies"@, section_rows(*raw, "dependencies"@));
    let ghost two = rows_wildcarded(
        one,
        "dev-dependencies"@,
        section_rows(*raw, "dev-dependencies"@),
    );
    let ghost three = rows_wildcarded(
        two,
        "build-dependencies"@,
        section_rows(*raw, "build-dependencies"@),
    );
    let n: usize = wildcard_section(doc, raw, "dependencies", 0, Ghost(zero));
    let n: usize = wildcard_section(doc, raw, "dev-dependencies", n, Ghost(one));
    let mut changes: usize = wildcard_section(doc, raw, "build-dependencies", n, Ghost(two));
    if let Some(rows) = discover::workspace_dep_table(raw) {
        let mut i: usize = 0;
        assert(rows@.take(0) =~= Seq::<(String, Toml)>::empty());
        while i < rows.len()
            invariant
                i <= rows.len(),
                manifest::keeps_root(manifest::doc_node(*old(doc)), manifest::doc_node(*doc)),
                manifest::doc_node(*doc) == workspace_wildcarded(three, rows@.take(i as int)).node,
                changes == ci::capped(workspace_wildcarded(three, rows@.take(i as int)).changes),
            decreases rows.len() - i,
        {
            assert(rows@.take(i + 1).drop_last() =~= rows@.take(i as int));
            if has_both(&rows[i].1) {
                if manifest::set_workspace_dep_version(doc, rows[i].0.as_str(), "*") {
                    changes = changes.saturating_add(1);
                }
            }
            i += 1;
        }
        assert(rows@.take(i as int) =~= rows@);
    }
    changes
}

// ── From a manifest's text ──

/// What the text of a manifest reads as; where it does not, a value without entries.
pub open spec fn raw_of(content: Seq<char>) -> Toml {
    match value::parsed_toml(content) {
        Ok(v) => v,
        Err(_) => Toml::Boolean(false),
    }
}

fn raw_in(content: &str) -> (r: Toml)
    ensures
        r == raw_of(content@),
{
    match value::parse_toml(content) {
        Ok(v) => v,
        Err(_) => Toml::Boolean(false),
    }
}

/// A manifest that was edited, with the number of changes.
pub struct EditedManifest {
    pub doc: DocumentMut,
    pub changes: usize,
}

/// Whether a manifest is the outcome of an edit, ready to be written.
pub open spec fn comes_out(m: EditedManifest, e: Edited) -> bool {
    manifest::doc_node(m.doc) == e.node && e.node is Table && m.changes == ci::capped(e.changes)
}

/// Whether `r` is what a manifest's text comes to under an edit of its document, or the complaint
/// that the text is no document.
pub open spec fn edits_text(
    r: Result<EditedManifest, String>,
    path: Seq<char>,
    content: Seq<char>,
    edit: spec_fn(Node) -> Edited,
) -> bool {
    match manifest::parsed_document(content) {
        Ok(node) => r is Ok && comes_out(r->Ok_0, edit(node)),
        Err(e) => r is Err && r->Err_0@ == value::parsing_message(path, e),
    }
}

/// Add paths to the deps in the text of a manifest of the project that reference crates of a list,
/// given where those were found.
pub fn override_paths_in(
    manifest_path: &str,
    content: &str,
    crates_in_dir: &Vec<String>,
    found: &TextMap<String>,
) -> (r: Result<EditedManifest, String>)
    ensures
        edits_text(
            r,
            manifest_path@,
            content@,
            |n: Node| overridden(n, raw_of(content@), text::texts(crates_in_dir@), found@),
        ),
{
    let raw = raw_in(content);
    let mut doc = manifest::read_manifest(manifest_path, content)?;
    let changes: usize = add_path_overrides(&mut doc, &raw, crates_in_dir, found);
    Ok(EditedManifest { doc, changes })
}

/// Add path overrides to the text of a cloned repo's manifest, given where the crates of its
/// siblings were found.
pub fn override_repo_paths_in(manifest_path: &str, content: &str, found: &TextMap<String>) -> (r:
    Result<EditedManifest, String>)
    ensures
        edits_text(
            r,
            manifest_path@,
            content@,
            |n: Node| repo_overridden(n, raw_of(content@), found@),
        ),
{
    let raw = raw_in(content);
    let mut doc = manifest::read_manifest(manifest_path, content)?;
    let changes: usize = add_path_overrides_to_repo(&mut doc, &raw, found);
    Ok(EditedManifest { doc, changes })
}

/// Set version = "*" in the text of a manifest on all deps that have a path key and a version.
pub fn wildcard_versions_in(manifest_path: &str, content: &str) -> (r: Result<
    EditedManifest,
    String,
>)
    ensures
        edits_text(r, manifest_path@, content@, |n: Node| wildcarded(n, raw_of(content@))),
{
    let raw = raw_in(content);
    let mut doc = manifest::read_manifest(manifest_path, content)?;
    let changes: usize = wildcard_path_dep_versions(&mut doc, &raw);
    Ok(EditedManifest { doc, changes })
}

// ── What cloning needs and does ──

/// A path into a sibling directory needs that directory, one or two steps up; a path that stays
/// inside, or leaves by more steps, needs none by its name.
pub proof fn law_sibling_dirs(p: Seq<char>)
    ensures
        ({
            let parts = text::split(p, '/');
            let up_one = parts.len() >= 2 && parts[0] == ".."@ && parts[1] != ".."@;
            let up_two = parts.len() >= 3 && parts[0] == ".."@ && parts[1] == ".."@;
            &&& up_one ==> sibling_dir(p) == Some(parts[1])
            &&& up_two ==> sibling_dir(p) == Some(parts[2])
            &&& !up_one && !up_two ==> sibling_dir(p) is None
        }),
{
}

/// A manifest needs the directory that a path of one of its dependencies leads into, and that of
/// the repo of a known crate that it names without a path, in each of its sections and in those
/// of its workspace.
pub proof fn law_every_section_needs(
    doc: Toml,
    map: Map<Seq<char>, (String, String)>,
    section: Seq<char>,
    rows: Seq<(String, Toml)>,
    i: int,
)
    requires
        ((section == "dependencies"@ || section == "dev-dependencies"@ || section
            == "build-dependencies"@) && value::rows_of(doc.at(section)) == Some(rows))
            || discover::workspace_rows(doc) == Some(rows),
        0 <= i < rows.len(),
    ensures
        discover::path_of(rows[i].1) matches Some(p) ==> (sibling_dir(p) matches Some(dir)
            ==> doc_needs(doc, map, dir)),
        discover::path_of(rows[i].1) is None && map.dom().contains(
            discover::package_of(rows[i].1, rows[i].0@),
        ) ==> doc_needs(doc, map, map[discover::package_of(rows[i].1, rows[i].0@)].0@),
{
    if let Some(dir) = row_dir(rows[i], map) {
        assert(rows_need(rows, map, dir));
    }
}

/// Nothing else needs a directory.
pub proof fn law_needs_have_a_reason(
    doc: Toml,
    map: Map<Seq<char>, (String, String)>,
    dir: Seq<char>,
)
    requires
        doc_needs(doc, map, dir),
    ensures
        exists|rows: Seq<(String, Toml)>, i: int|
            #![trigger rows[i]]
            0 <= i < rows.len() && (value::rows_of(doc.at("dependencies"@)) == Some(rows)
                || value::rows_of(doc.at("dev-dependencies"@)) == Some(rows) || value::rows_of(
                doc.at("build-dependencies"@),
            ) == Some(rows) || discover::workspace_rows(doc) == Some(rows)) && (
            match discover::path_of(rows[i].1) {
                Some(p) => sibling_dir(p) == Some(dir),
                None => map.dom().contains(discover::package_of(rows[i].1, rows[i].0@))
                    && map[discover::package_of(rows[i].1, rows[i].0@)].0@ == dir,
            }),
{
    let rows = if rows_need(section_rows(doc, "dependencies"@), map, dir) {
        section_rows(doc, "dependencies"@)
    } else if rows_need(section_rows(doc, "dev-dependencies"@), map, dir) {
        section_rows(doc, "dev-dependencies"@)
    } else if rows_need(section_rows(doc, "build-dependencies"@), map, dir) {
        section_rows(doc, "build-dependencies"@)
    } else {
        workspace_rows(doc)
    };
    let i = choose|i: int| 0 <= i < rows.len() && #[trigger] row_dir(rows[i], map) == Some(dir);
    assert(0 <= i < rows.len());
    let row = rows[i];
}

/// The last override for a URL names the directory.
pub proof fn law_last_override_names_the_dir(repos: Seq<RepoOverride>, url: Seq<char>)
    ensures
        match overriding_dir(repos, url) {
            Some(d) => exists|i: int|
                0 <= i < repos.len() && (#[trigger] repos[i]).github is Some
                    && "https://github.com/"@ + repos[i].github.unwrap()@ == url && d
                    == sibling_name(repos[i].dir@) && forall|j: int|
                    i < j < repos.len() ==> (#[trigger] repos[j]).github is None
                        || "https://github.com/"@ + repos[j].github.unwrap()@ != url,
            None => forall|j: int|
                0 <= j < repos.len() ==> (#[trigger] repos[j]).github is None
                    || "https://github.com/"@ + repos[j].github.unwrap()@ != url,
        },
    decreases repos.len(),
{
    if repos.len() > 0 {
        let rest = repos.drop_last();
        law_last_override_names_the_dir(rest, url);
        assert(repos[repos.len() - 1] == repos.last());
        assert forall|j: int| 0 <= j < rest.len() implies rest[j] == repos[j] by {}
        if !(repos.last().github is Some && "https://github.com/"@ + repos.last().github.unwrap()@
            == url) {
            if let Some(d) = overriding_dir(rest, url) {
                let i = choose|i: int|
                    0 <= i < rest.len() && (#[trigger] rest[i]).github is Some
                        && "https://github.com/"@ + rest[i].github.unwrap()@ == url && d
                        == sibling_name(rest[i].dir@) && forall|j: int|
                        i < j < rest.len() ==> (#[trigger] rest[j]).github is None
                            || "https://github.com/"@ + rest[j].github.unwrap()@ != url;
                assert(repos[i] == rest[i]);
                assert forall|j: int| i < j < repos.len() implies (#[trigger] repos[j]).github
                    is None || "https://github.com/"@ + repos[j].github.unwrap()@ != url by {
                    if j < rest.len() {
                        assert(repos[j] == rest[j]);
                    }
                }
            }
        }
    }
}

proof fn lemma_settling(repos: Seq<RepoOverride>, i: int, dir: Seq<char>)
    requires
        0 <= i <= repos.len(),
    ensures
        match settling(repos, i, dir) {
            Some(k) => i <= k < repos.len() && sibling_name(repos[k].dir@) == dir && (
            repos[k].no_remote || repos[k].github is Some) && forall|j: int|
                i <= j < k ==> sibling_name((#[trigger] repos[j]).dir@) != dir || !(
                repos[j].no_remote || repos[j].github is Some),
            None => forall|j: int|
                i <= j < repos.len() ==> sibling_name((#[trigger] repos[j]).dir@) != dir || !(
                repos[j].no_remote || repos[j].github is Some),
        },
    decreases repos.len() - i,
{
    if i < repos.len() {
        lemma_settling(repos, i + 1, dir);
    }
}

/// The first override that settles a directory decides on its URL: one without a remote is not
/// cloned, whatever else it says, and one with a GitHub name is cloned from there.
pub proof fn law_override_settles_the_url(config: SuperworkConfig, dir: Seq<char>, i: int)
    requires
        0 <= i < config.repo@.len(),
        config.repo@[i].dir@ == dir || config.repo@[i].dir@ == "../"@ + dir,
        !"../"@.is_prefix_of(dir),
        config.repo@[i].no_remote || config.repo@[i].github is Some,
        forall|j: int|
            0 <= j < i ==> sibling_name((#[trigger] config.repo@[j]).dir@) != dir || (
            !config.repo@[j].no_remote && config.repo@[j].github is None),
    ensures
        config.repo@[i].no_remote ==> repo_url(dir, config) is None,
        !config.repo@[i].no_remote ==> repo_url(dir, config) == Some(
            "https://github.com/"@ + config.repo@[i].github.unwrap()@,
        ),
{
    lemma_settling(config.repo@, 0, dir);
    let whole = "../"@ + dir;
    assert(whole.subrange("../"@.len() as int, whole.len() as int) =~= dir);
    assert(whole.skip("../"@.len() as int) =~= dir);
    assert("../"@.is_prefix_of(whole));
    assert(sibling_name(config.repo@[i].dir@) =~= dir);
}

/// Without an override a directory is cloned from a patched repo of its name, else from the
/// default org.
pub proof fn law_urls_without_override(config: SuperworkConfig, dir: Seq<char>)
    requires
        forall|j: int|
            0 <= j < config.repo@.len() ==> sibling_name((#[trigger] config.repo@[j]).dir@) != dir
                || (!config.repo@[j].no_remote && config.repo@[j].github is None),
    ensures
        repo_url(dir, config) is Some,
        (forall|k: int|
            0 <= k < config.ci.patch_repos.keys().len() ==> repo_name(
                (#[trigger] config.ci.patch_repos.values()[k])@,
            ) != Some(dir)) ==> repo_url(dir, config) == Some(
            "https://github.com/"@ + config.described().default_github_org@ + "/"@ + dir,
        ),
        forall|k: int|
            0 <= k < config.ci.patch_repos.keys().len() && repo_name(
                (#[trigger] config.ci.patch_repos.values()[k])@,
            ) == Some(dir) ==> exists|m: int|
                0 <= m <= k && repo_url(dir, config) == Some(
                    (#[trigger] config.ci.patch_repos.values()[m])@,
                ) && repo_name(config.ci.patch_repos.values()[m]@) == Some(dir),
{
    lemma_settling(config.repo@, 0, dir);
    lemma_url_named(config.ci.patch_repos, 0, dir);
}

proof fn lemma_url_named(urls: TextMap<String>, i: int, dir: Seq<char>)
    requires
        0 <= i <= urls.keys().len(),
    ensures
        match url_named(urls, i, dir) {
            Some(u) => exists|m: int|
                i <= m < urls.keys().len() && (#[trigger] urls.values()[m])@ == u && repo_name(u)
                    == Some(dir) && forall|k: int|
                    i <= k < m ==> repo_name((#[trigger] urls.values()[k])@) != Some(dir),
            None => forall|k: int|
                i <= k < urls.keys().len() ==> repo_name((#[trigger] urls.values()[k])@) != Some(
                    dir,
                ),
        },
    decreases urls.keys().len() - i,
{
    if i < urls.keys().len() {
        lemma_url_named(urls, i + 1, dir);
        if repo_name(urls.values()[i]@) == Some(dir) {
            assert(urls.values()[i]@ == urls.values()[i]@);
        } else if let Some(u) = url_named(urls, i + 1, dir) {
            let m = choose|m: int|
                i + 1 <= m < urls.keys().len() && (#[trigger] urls.values()[m])@ == u && repo_name(
                    u,
                ) == Some(dir) && forall|k: int|
                    i + 1 <= k < m ==> repo_name((#[trigger] urls.values()[k])@) != Some(dir);
            assert(urls.values()[m]@ == u);
        }
    }
}

/// A dependency of the list that was written without a path and whose place was found gets that
/// path and any version; every other dependency stays as it was.
pub proof fn law_found_crates_get_paths(
    e: Edited,
    raw: Toml,
    section: Seq<char>,
    names: Seq<Seq<char>>,
    found: Map<Seq<char>, String>,
    s: Seq<char>,
    name: Seq<char>,
)
    ensures
        ({
            let was = manifest::dep_at(e.node, s, name);
            let now = manifest::dep_at(
                section_overridden(e, raw, section, names, found).node,
                s,
                name,
            );
            let asked = s == section && names.contains(name) && found.dom().contains(name)
                && value::step(value::step(raw.at(section), name), "path"@) is None;
            &&& !asked ==> now == was
            &&& asked && was is Some && (was.unwrap() is Text || (was.unwrap().is_tabular()
                && !was.unwrap().has("path"@))) ==> now is Some && now.unwrap().is_tabular()
                && manifest::entry_is(now.unwrap(), "path"@, found[name]@) && manifest::entry_is(
                now.unwrap(),
                "version"@,
                "*"@,
            )
            &&& was is None ==> now is None
        }),
    decreases names.len(),
{
    if names.len() > 0 {
        let rest = names.drop_last();
        let last = names.last();
        law_found_crates_get_paths(e, raw, section, rest, found, s, name);
        group::lemma_push_contains(rest, last);
        assert(names =~= rest.push(last));
        let before = section_overridden(e, raw, section, rest, found);
        if !written_path(raw, section, last) && found.dom().contains(last) {
            let p = found[last]@;
            let set = manifest::path_set(before.node, section, last, p);
            manifest::law_edits_are_local(before.node, section, last, p);
            manifest::law_edits_are_local(set.0, section, last, "*"@);
            manifest::law_path_is_set(before.node, section, last, p, "version"@);
            manifest::law_only_the_version_changes(set.0, section, last, "*"@, "path"@);
            reveal_strlit("version");
            reveal_strlit("path");
            assert("version"@.len() != "path"@.len());
        }
    }
}

/// Any version is set for each dependency of a section that is written with a path and a version,
/// and no other dependency changes.
pub proof fn law_dual_versions_are_freed(
    e: Edited,
    section: Seq<char>,
    rows: Seq<(String, Toml)>,
    s: Seq<char>,
    name: Seq<char>,
)
    ensures
        ({
            let was = manifest::dep_at(e.node, s, name);
            let now = manifest::dep_at(rows_wildcarded(e, section, rows).node, s, name);
            let dual = s == section && exists|i: int|
                0 <= i < rows.len() && (#[trigger] rows[i]).0@ == name && rows[i].1.at("path"@)
                    is Some && rows[i].1.at("version"@) is Some;
            &&& !dual ==> now == was
            &&& dual && was is Some && was.unwrap().is_tabular() ==> now is Some
                && now.unwrap().is_tabular() && manifest::entry_is(
                now.unwrap(),
                "version"@,
                "*"@,
            )
        }),
    decreases rows.len(),
{
    if rows.len() > 0 {
        let rest = rows.drop_last();
        law_dual_versions_are_freed(e, section, rest, s, name);
        assert(rows[rows.len() - 1] == rows.last());
        assert forall|i: int| 0 <= i < rest.len() implies rest[i] == rows[i] by {}
        let before = rows_wildcarded(e, section, rest);
        if is_dual(rows.last().1) {
            manifest::law_edits_are_local(before.node, section, rows.last().0@, "*"@);
            manifest::law_only_the_version_changes(
                before.node,
                section,
                rows.last().0@,
                "*"@,
                "path"@,
            );
        }
    }
}

/// The entries of `[workspace.dependencies]` that are written with a path and a version get any
/// version, and no other entry changes.
pub proof fn law_dual_workspace_versions_are_freed(
    e: Edited,
    rows: Seq<(String, Toml)>,
    name: Seq<char>,
)
    ensures
        ({
            let was = manifest::workspace_dep_at(e.node, name);
            let now = manifest::workspace_dep_at(workspace_wildcarded(e, rows).node, name);
            let dual = exists|i: int|
                0 <= i < rows.len() && (#[trigger] rows[i]).0@ == name && rows[i].1.at("path"@)
                    is Some && rows[i].1.at("version"@) is Some;
            &&& !dual ==> now == was
            &&& dual && was is Some && was.unwrap().is_tabular() ==> now is Some
                && now.unwrap().is_tabular() && manifest::entry_is(
                now.unwrap(),
                "version"@,
                "*"@,
            )
        }),
    decreases rows.len(),
{
    if rows.len() > 0 {
        let rest = rows.drop_last();
        law_dual_workspace_versions_are_freed(e, rest, name);
        assert(rows[rows.len() - 1] == rows.last());
        assert forall|i: int| 0 <= i < rest.len() implies rest[i] == rows[i] by {}
        let before = workspace_wildcarded(e, rest);
        if is_dual(rows.last().1) {
            if name != rows.last().0@ {
                manifest::law_workspace_edits_are_local(
                    before.node,
                    rows.last().0@,
                    "*"@,
                    name,
                );
            }
            manifest::law_only_the_version_changes(
                before.node,
                "dependencies"@,
                rows.last().0@,
                "*"@,
                "path"@,
            );
        }
    }
}

/// A dependency that is to be deleted is gone from all three sections; no other one is.
pub proof fn law_purged_deps_are_gone(
    node: Node,
    deps: Seq<Seq<char>>,
    section: Seq<char>,
    name: Seq<char>,
)
    requires
        section != "features"@,
    ensures
        ({
            let now = manifest::dep_at(deps_purged(node, deps).node, section, name);
            let named = deps.contains(name) && (section == "dependencies"@ || section
                == "dev-dependencies"@ || section == "build-dependencies"@);
            &&& named ==> now is None
            &&& !named ==> now == manifest::dep_at(node, section, name)
        }),
    decreases deps.len(),
{
    if deps.len() > 0 {
        let rest = deps.drop_last();
        let last = deps.last();
        law_purged_deps_are_gone(node, rest, section, name);
        group::lemma_push_contains(rest, last);
        assert(deps =~= rest.push(last));
        let zero = deps_purged(node, rest);
        let gone = ci::deleted_in(zero, last, 3);
        reveal_with_fuel(ci::deleted_in, 4);
        let one = ci::deleted_in(zero, last, 1);
        let two = ci::deleted_in(zero, last, 2);
        manifest::law_edits_are_local(zero.node, "dependencies"@, last, name);
        manifest::law_edits_are_local(one.node, "dev-dependencies"@, last, name);
        manifest::law_edits_are_local(two.node, "build-dependencies"@, last, name);
        manifest::law_deleted_is_gone(zero.node, "dependencies"@, last);
        manifest::law_deleted_is_gone(one.node, "dev-dependencies"@, last);
        manifest::law_deleted_is_gone(two.node, "build-dependencies"@, last);
        reveal_strlit("dependencies");
        reveal_strlit("dev-dependencies");
        reveal_strlit("build-dependencies");
        assert("dependencies"@.len() == 12 && "dev-dependencies"@.len() == 16
            && "build-dependencies"@.len() == 18);
        assert(manifest::dep_at(manifest::features_stripped(gone.node, last), section, name)
            == manifest::dep_at(gone.node, section, name));
    }
}

/// The list under the package counts; the one under the workspace counts where the package has
/// none.
pub proof fn law_delete_lists(content: Seq<char>, doc: Toml)
    requires
        value::parsed_toml(content) == Ok::<Toml, Seq<char>>(doc),
    ensures
        delete_list(doc, "package"@) matches Some(a) ==> deleted_deps(content)
            == value::texts_among(a),
        delete_list(doc, "package"@) is None ==> (delete_list(doc, "workspace"@) matches Some(a)
            ==> deleted_deps(content) == value::texts_among(a)),
        delete_list(doc, "package"@) is None && delete_list(doc, "workspace"@) is None
            ==> deleted_deps(content).len() == 0,
{
}

/// The manifest of each member is looked for where the member lies, and for a pattern also below
/// the directory before its star.
pub proof fn law_member_places(members: Seq<Seq<char>>, i: int)
    requires
        0 <= i < members.len(),
    ensures
        manifest_places(members).contains(PlaceModel::At(members[i])),
        members[i].contains('*') ==> manifest_places(members).contains(
            PlaceModel::Within(text::upto(members[i], '*', '*')),
        ),
        manifest_places(members).len() == members.len() + members.filter(
            |m: Seq<char>| m.contains('*'),
        ).len(),
    decreases members.len(),
{
    reveal(Seq::filter);
    let rest = members.drop_last();
    let m = members.last();
    let before = manifest_places(rest);
    group::lemma_push_contains(before, PlaceModel::At(m));
    group::lemma_push_contains(
        before.push(PlaceModel::At(m)),
        PlaceModel::Within(before_star(m)),
    );
    if i < rest.len() {
        assert(rest[i] == members[i]);
        law_member_places(rest, i);
    } else if rest.len() > 0 {
        law_member_places(rest, 0);
    } else {
        assert(rest =~= Seq::empty());
        assert(before.len() == 0);
    }
}

/// The repo name in a GitHub URL is what stands between the owner and the next slash.
pub proof fn law_repo_names(owner: Seq<char>, name: Seq<char>, url: Seq<char>)
    requires
        !owner.contains('/'),
        !name.contains('/'),
    ensures
        repo_name("https://github.com/"@ + (owner + seq!['/'] + name)) == Some(name),
        repo_name("https://github.com/"@ + owner) is None,
        repo_name(url) is Some ==> "https://github.com/"@.is_prefix_of(url),
{
    let lead = "https://github.com/"@;
    let rest = owner + seq!['/'] + name;
    assert((lead + rest).skip(lead.len() as int) =~= rest);
    assert((lead + owner).skip(lead.len() as int) =~= owner);
    assert(lead.is_prefix_of(lead + rest));
    assert(lead.is_prefix_of(lead + owner));
    text::lemma_split_around(owner, name, '/');
    text::lemma_split_whole(owner, '/');
    text::lemma_split_whole(name, '/');
    assert(text::split(rest, '/') =~= seq![owner, name]);
}

/// Every patched crate has its URL in the map, with the directory that an override for the URL
/// names, else the repo's name, else its own.
pub proof fn law_patched_crates_have_repos(
    map: Map<Seq<char>, (String, String)>,
    config: SuperworkConfig,
    name: Seq<char>,
)
    requires
        is_repo_map(map, config),
    ensures
        map.dom().contains(name) <==> config.ci.patch_repos@.dom().contains(name),
        map.dom().contains(name) ==> map[name].1@ == config.ci.patch_repos@[name]@,
        map.dom().contains(name) ==> map[name].0@ == (match overriding_dir(
            config.repo@,
            config.ci.patch_repos@[name]@,
        ) {
            Some(d) => d,
            None => match repo_name(config.ci.patch_repos@[name]@) {
                Some(n) => n,
                None => name,
            },
        }),
{
}

/// A sibling lies in the directory that holds the manifest's own.
pub proof fn law_siblings_lie_beside(manifest_path: Seq<char>, sibling: Seq<char>)
    ensures
        beside(manifest_path, sibling) is Some <==> path::parent(manifest_path) is Some
            && path::parent(path::parent(manifest_path).unwrap()) is Some,
        beside(manifest_path, sibling) is Some ==> beside(manifest_path, sibling) == Some(
            path::joined(
                path::parent(path::parent(manifest_path).unwrap()).unwrap(),
                sibling,
            ),
        ),
{
}

/// The manifest of a project gets the paths in all three of its sections.
pub proof fn law_paths_in_all_sections(
    node: Node,
    raw: Toml,
    names: Seq<Seq<char>>,
    found: Map<Seq<char>, String>,
    section: Seq<char>,
    name: Seq<char>,
)
    requires
        section == "dependencies"@ || section == "dev-dependencies"@ || section
            == "build-dependencies"@,
        names.contains(name),
        found.dom().contains(name),
        value::step(value::step(raw.at(section), name), "path"@) is None,
        manifest::dep_at(node, section, name) is Some,
        manifest::dep_at(node, section, name).unwrap() is Text || (manifest::dep_at(
            node,
            section,
            name,
        ).unwrap().is_tabular() && !manifest::dep_at(node, section, name).unwrap().has("path"@)),
    ensures
        ({
            let now = manifest::dep_at(overridden(node, raw, names, found).node, section, name);
            now is Some && manifest::entry_is(now.unwrap(), "path"@, found[name]@)
                && manifest::entry_is(now.unwrap(), "version"@, "*"@)
        }),
{
    reveal_strlit("dependencies");
    reveal_strlit("dev-dependencies");
    reveal_strlit("build-dependencies");
    assert("dependencies"@.len() == 12 && "dev-dependencies"@.len() == 16
        && "build-dependencies"@.len() == 18);
    let zero = ci::unedited(node);
    let one = section_overridden(zero, raw, "dependencies"@, names, found);
    let two = section_overridden(one, raw, "dev-dependencies"@, names, found);
    law_found_crates_get_paths(zero, raw, "dependencies"@, names, found, section, name);
    law_found_crates_get_paths(one, raw, "dev-dependencies"@, names, found, section, name);
    law_found_crates_get_paths(two, raw, "build-dependencies"@, names, found, section, name);
}

/// Any version is set in all three sections for what is written with a path and a version there.
pub proof fn law_versions_in_all_sections(
    node: Node,
    raw: Toml,
    section: Seq<char>,
    rows: Seq<(String, Toml)>,
    i: int,
)
    requires
        section == "dependencies"@ || section == "dev-dependencies"@ || section
            == "build-dependencies"@,
        value::rows_of(raw.at(section)) == Some(rows),
        0 <= i < rows.len(),
        rows[i].1.at("path"@) is Some,
        rows[i].1.at("version"@) is Some,
        manifest::dep_at(node, section, rows[i].0@) is Some,
        manifest::dep_at(node, section, rows[i].0@).unwrap().is_tabular(),
    ensures
        ({
            let now = manifest::dep_at(wildcarded(node, raw).node, section, rows[i].0@);
            now is Some && manifest::entry_is(now.unwrap(), "version"@, "*"@)
        }),
{
    reveal_strlit("dependencies");
    reveal_strlit("dev-dependencies");
    reveal_strlit("build-dependencies");
    reveal_strlit("workspace");
    assert("dependencies"@.len() == 12 && "dev-dependencies"@.len() == 16
        && "build-dependencies"@.len() == 18 && "workspace"@.len() == 9);
    let name = rows[i].0@;
    let zero = ci::unedited(node);
    let one = rows_wildcarded(zero, "dependencies"@, section_rows(raw, "dependencies"@));
    let two = rows_wildcarded(one, "dev-dependencies"@, section_rows(raw, "dev-dependencies"@));
    let three = rows_wildcarded(
        two,
        "build-dependencies"@,
        section_rows(raw, "build-dependencies"@),
    );
    law_dual_versions_are_freed(
        zero,
        "dependencies"@,
        section_rows(raw, "dependencies"@),
        section,
        name,
    );
    law_dual_versions_are_freed(
        one,
        "dev-dependencies"@,
        section_rows(raw, "dev-dependencies"@),
        section,
        name,
    );
    law_dual_versions_are_freed(
        two,
        "build-dependencies"@,
        section_rows(raw, "build-dependencies"@),
        section,
        name,
    );
    lemma_workspace_edits_leave_sections(three, workspace_rows(raw), section, name);
}

proof fn lemma_workspace_edits_leave_sections(
    e: Edited,
    rows: Seq<(String, Toml)>,
    section: Seq<char>,
    name: Seq<char>,
)
    requires
        section != "workspace"@,
    ensures
        manifest::dep_at(workspace_wildcarded(e, rows).node, section, name) == manifest::dep_at(
            e.node,
            section,
            name,
        ),
    decreases rows.len(),
{
    if rows.len() > 0 {
        lemma_workspace_edits_leave_sections(e, rows.drop_last(), section, name);
    }
}

/// A path that is already the right one is no change, and a dependency that is not declared takes
/// none; every other one counts once.
pub proof fn law_path_changes_count_once(
    e: Edited,
    section: Seq<char>,
    name: Seq<char>,
    p: Seq<char>,
)
    ensures
        ({
            let d = manifest::dep_at(e.node, section, name);
            let after = pathed(e, section, name, p);
            &&& d is Some && (d.unwrap() is Text || (d.unwrap().is_tabular() && !manifest::entry_is(
                d.unwrap(),
                "path"@,
                p,
            ))) ==> after.changes == e.changes + 1
            &&& d is None || (!(d.unwrap() is Text) && (!d.unwrap().is_tabular()
                || manifest::entry_is(d.unwrap(), "path"@, p))) ==> after == e
        }),
{
}

} // verus!
