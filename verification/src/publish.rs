//! What to publish: ownership, versions, tags and changes.

use vstd::prelude::*;
use vstd::string::*;

use crate::discover::{CrateInfo, Ecosystem};
use crate::path;
use crate::text;

verus! {

broadcast use text::lemma_texts_push;

// ── Blockers ──

/// Whether a crate is known and can be published.
pub open spec fn is_publishable(eco: Ecosystem, name: Seq<char>) -> bool {
    eco.crates.has(name) && eco.crates@[name].publishable
}

/// Whether a dependency between publishable crates names a path and no version.
pub open spec fn is_blocker(eco: Ecosystem, i: int) -> bool {
    let dep = eco.deps@[i];
    is_publishable(eco, dep.from_crate@) && is_publishable(eco, dep.to_crate@) && dep.has_path
        && !dep.has_version
}

/// The places among the first `n` dependencies of those that block publishing.
pub open spec fn blockers_upto(eco: Ecosystem, n: nat) -> Seq<int>
    decreases n,
{
    if n == 0 {
        Seq::empty()
    } else if is_blocker(eco, n - 1) {
        blockers_upto(eco, (n - 1) as nat).push(n - 1)
    } else {
        blockers_upto(eco, (n - 1) as nat)
    }
}

/// Whether a crate is known and can be published.
pub fn publishable(eco: &Ecosystem, name: &str) -> (r: bool)
    ensures
        r == is_publishable(*eco, name@),
{
    match eco.crates.get(name) {
        Some(c) => c.publishable,
        None => false,
    }
}

/// The places of the dependencies that block publishing.
pub fn publish_blockers(eco: &Ecosystem) -> (r: Vec<usize>)
    ensures
        crate::group::ints(r@) == blockers_upto(*eco, eco.deps@.len()),
{
    let mut out: Vec<usize> = Vec::new();
    let mut i: usize = 0;
    assert(crate::group::ints(out@) =~= Seq::<int>::empty());
    while i < eco.deps.len()
        invariant
            i <= eco.deps.len(),
            crate::group::ints(out@) == blockers_upto(*eco, i as nat),
        decreases eco.deps.len() - i,
    {
        let dep = &eco.deps[i];
        if publishable(eco, dep.from_crate.as_str()) && publishable(eco, dep.to_crate.as_str())
            && dep.has_path && !dep.has_version {
            let ghost sofar = crate::group::ints(out@);
            out.push(i);
            assert(crate::group::ints(out@) =~= sofar.push(i as int));
        }
        i += 1;
    }
    out
}

// ── The registry's answer ──

/// What lines say of a crate: the last version named, if any, and the last repository.
pub open spec fn info_in(lines: Seq<Seq<char>>) -> (Option<Seq<char>>, Seq<char>)
    decreases lines.len(),
{
    if lines.len() == 0 {
        (None, Seq::empty())
    } else {
        let before = info_in(lines.drop_last());
        let line = text::trim(lines.last());
        match text::after_prefix(line, "version:"@) {
            Some(v) => (Some(text::leading_word(text::trim(v))), before.1),
            None => match text::after_prefix(line, "repository:"@) {
                Some(r) => (before.0, text::trim(r)),
                None => before,
            },
        }
    }
}

/// The version and the repository that the registry names, where it knows the crate.
pub open spec fn registry_info(stdout: Seq<char>) -> Option<(Seq<char>, Seq<char>)> {
    let found = info_in(text::lines(stdout));
    match found.0 {
        Some(v) => Some((v, found.1)),
        None => None,
    }
}

/// Read the version and the repository URL from what `cargo info` prints.
pub fn parse_cargo_info(stdout: &str) -> (r: Option<(String, String)>)
    ensures
        match r {
            Some((v, repo)) => registry_info(stdout@) == Some((v@, repo@)),
            None => registry_info(stdout@) is None,
        },
{
    let ls = text::lines_of(stdout);
    let ghost all = text::lines(stdout@);
    let mut version: Option<String> = None;
    let mut repo = String::new();
    let mut i: usize = 0;
    assert(all.take(0) =~= Seq::<Seq<char>>::empty());
    while i < ls.len()
        invariant
            i <= ls.len(),
            all == text::texts(ls@),
            (text::opt(version), repo@) == info_in(all.take(i as int)),
        decreases ls.len() - i,
    {
        assert(all.take(i + 1).drop_last() =~= all.take(i as int));
        assert(all.take(i + 1).last() == ls@[i as int]@);
        let line = text::trimmed(ls[i].as_str());
        if let Some(v) = text::strip_lead(line.as_str(), "version:") {
            let v = text::trimmed(v.as_str());
            version = Some(text::leading_word_of(v.as_str()));
        } else if let Some(r) = text::strip_lead(line.as_str(), "repository:") {
            repo = text::trimmed(r.as_str());
        }
        i += 1;
    }
    assert(all.take(i as int) =~= all);
    match version {
        Some(v) => Some((v, repo)),
        None => None,
    }
}

/// A text in lower case.
pub uninterp spec fn lowercased(s: Seq<char>) -> Seq<char>;

/// `str::to_lowercase`: the text in lower case, named by `lowercased`.
#[verifier::external_body]
fn lowercase(s: &str) -> (r: String)
    ensures
        r@ == lowercased(s@),
{
    s.to_lowercase()
}

/// Whether a URL in lower case lies below an org, also in lower case.
pub open spec fn lies_below(url: Seq<char>, org: Seq<char>) -> bool {
    text::occurs(url, "github.com/"@ + org + "/"@) || text::occurs(
        url,
        "github.com/"@ + org + "."@,
    )
}

/// Whether a repository URL belongs to one of the orgs; no URL counts as owned.
pub open spec fn is_owned(repo_url: Seq<char>, orgs: Seq<Seq<char>>) -> bool {
    repo_url.len() == 0 || exists|i: int|
        0 <= i < orgs.len() && lies_below(lowercased(repo_url), lowercased(#[trigger] orgs[i]))
}

/// Whether a URL in lower case lies below an org in lower case.
pub fn url_lies_below(url: &str, org: &str) -> (r: bool)
    ensures
        r == lies_below(url@, org@),
{
    let with_slash = text::cat3("github.com/", org, "/");
    let with_dot = text::cat3("github.com/", org, ".");
    text::contains(url, with_slash.as_str()) || text::contains(url, with_dot.as_str())
}

/// Check if a crates.io repository URL belongs to one of our owned orgs.
pub fn is_owned_repo(repo_url: &str, owned_orgs: &Vec<String>) -> (r: bool)
    ensures
        r == is_owned(repo_url@, text::texts(owned_orgs@)),
{
    if repo_url.is_empty() {
        return true;
    }
    let url = lowercase(repo_url);
    let ghost orgs = text::texts(owned_orgs@);
    let mut i: usize = 0;
    while i < owned_orgs.len()
        invariant
            i <= owned_orgs.len(),
            url@ == lowercased(repo_url@),
            orgs == text::texts(owned_orgs@),
            forall|j: int|
                0 <= j < i ==> !lies_below(lowercased(repo_url@), lowercased(#[trigger] orgs[j])),
        decreases owned_orgs.len() - i,
    {
        let org = lowercase(owned_orgs[i].as_str());
        assert(orgs[i as int] == owned_orgs@[i as int]@);
        if url_lies_below(url.as_str(), org.as_str()) {
            return true;
        }
        i += 1;
    }
    false
}

// ── Standing ──

/// Where a crate stands against the registry.
#[derive(Debug, Clone, Copy, PartialEq, Eq, Structural)]
pub enum Standing {
    /// The registry does not know it.
    NeverPublished,
    /// The registry has it from somebody else.
    ExternalFork,
    /// The local version differs from the published one.
    Ready,
    /// The versions are equal: it depends on what changed since the tag.
    SameVersion,
    /// Equal versions, but the source changed.
    NeedsBump,
    /// Equal versions and nothing changed.
    UpToDate,
}

/// Where a crate stands, before its changes are looked at.
pub open spec fn standing(
    version: Seq<char>,
    published: Option<(Seq<char>, Seq<char>)>,
    orgs: Seq<Seq<char>>,
) -> Standing {
    match published {
        None => Standing::NeverPublished,
        Some((v, repo)) => if !is_owned(repo, orgs) {
            Standing::ExternalFork
        } else if v != version {
            Standing::Ready
        } else {
            Standing::SameVersion
        },
    }
}

/// Where a crate stands, before its changes are looked at.
pub fn registry_standing(
    version: &str,
    published: &Option<(String, String)>,
    owned_orgs: &Vec<String>,
) -> (r: Standing)
    ensures
        r == standing(
            version@,
            match *published {
                Some((v, repo)) => Some((v@, repo@)),
                None => None,
            },
            text::texts(owned_orgs@),
        ),
{
    match published {
        None => Standing::NeverPublished,
        Some((v, repo)) => {
            if !is_owned_repo(repo.as_str(), owned_orgs) {
                Standing::ExternalFork
            } else if !text::same(v.as_str(), version) {
                Standing::Ready
            } else {
                Standing::SameVersion
            }
        },
    }
}

/// Where a crate stands once its changes since the tag are known; without a tag everything
/// counts as changed.
pub fn settled_standing(s: Standing, has_tag: bool, changed: bool) -> (r: Standing)
    ensures
        r == (if s == Standing::SameVersion {
            if !has_tag || changed {
                Standing::NeedsBump
            } else {
                Standing::UpToDate
            }
        } else {
            s
        }),
{
    if s == Standing::SameVersion {
        if !has_tag || changed {
            Standing::NeedsBump
        } else {
            Standing::UpToDate
        }
    } else {
        s
    }
}

/// The places among the first `n` of a standing.
pub open spec fn standing_at(all: Seq<Standing>, s: Standing, n: nat) -> Seq<int>
    decreases n,
{
    if n == 0 {
        Seq::empty()
    } else if all[n - 1] == s {
        standing_at(all, s, (n - 1) as nat).push(n - 1)
    } else {
        standing_at(all, s, (n - 1) as nat)
    }
}

/// The places of a standing.
pub fn with_standing(all: &Vec<Standing>, s: Standing) -> (r: Vec<usize>)
    ensures
        crate::group::ints(r@) == standing_at(all@, s, all@.len()),
{
    let mut out: Vec<usize> = Vec::new();
    let mut i: usize = 0;
    assert(crate::group::ints(out@) =~= Seq::<int>::empty());
    while i < all.len()
        invariant
            i <= all.len(),
            crate::group::ints(out@) == standing_at(all@, s, i as nat),
        decreases all.len() - i,
    {
        if all[i] == s {
            let ghost sofar = crate::group::ints(out@);
            out.push(i);
            assert(crate::group::ints(out@) =~= sofar.push(i as int));
        }
        i += 1;
    }
    out
}

// ── Tags and paths ──

/// The tags that a version may go by, in the order in which they are tried.
pub open spec fn tags_for(name: Seq<char>, version: Seq<char>) -> Seq<Seq<char>> {
    seq![name + "-v"@ + version, "v"@ + version, name + "-"@ + version]
}

/// The tags that a version may go by: the crate-prefixed one first, since repos with several
/// crates use prefixed tags.
pub fn tag_candidates(name: &str, version: &str) -> (r: Vec<String>)
    ensures
        text::texts(r@) == tags_for(name@, version@),
{
    let mut out: Vec<String> = Vec::new();
    out.push(text::cat3(name, "-v", version));
    out.push(text::cat2("v", version));
    out.push(text::cat3(name, "-", version));
    assert(text::texts(out@) =~= tags_for(name@, version@));
    out
}

/// The first candidate that exists.
pub open spec fn first_existing(tags: Seq<Seq<char>>, exists_at: Seq<bool>, i: int) -> Option<
    Seq<char>,
>
    decreases tags.len() - i,
{
    if i < 0 || i >= tags.len() || i >= exists_at.len() {
        None
    } else if exists_at[i] {
        Some(tags[i])
    } else {
        first_existing(tags, exists_at, i + 1)
    }
}

/// Find the git tag for a crate at a version, given which of its candidates exist.
pub fn find_version_tag_for(name: &str, version: &str, exists_at: &Vec<bool>) -> (r: Option<String>)
    ensures
        text::opt(r) == first_existing(tags_for(name@, version@), exists_at@, 0),
{
    let tags = tag_candidates(name, version);
    let ghost ts = tags_for(name@, version@);
    let mut i: usize = 0;
    assert(ts.len() == tags.len());
    while i < tags.len() && i < exists_at.len()
        invariant
            i <= tags.len(),
            i <= exists_at.len(),
            ts == text::texts(tags@),
            first_existing(ts, exists_at@, i as int) == first_existing(ts, exists_at@, 0),
        decreases tags.len() - i,
    {
        assert(ts[i as int] == tags@[i as int]@);
        if exists_at[i] {
            return Some(tags[i].clone());
        }
        i += 1;
    }
    None
}

/// The directory of a crate.
pub open spec fn crate_dir(info: CrateInfo) -> Option<Seq<char>> {
    path::parent(info.manifest_path@)
}

/// The directory of a crate's repo: its workspace's, or its own.
pub open spec fn repo_home(info: CrateInfo) -> Option<Seq<char>> {
    match info.workspace_root {
        Some(ws) => path::parent(ws@),
        None => crate_dir(info),
    }
}

/// The path of a directory below another, with a slash behind it; empty for that one itself and
/// for what does not lie below it.
pub open spec fn prefix_in(dir: Seq<char>, home: Seq<char>) -> Seq<char> {
    match path::beneath(dir, home) {
        Some(rel) => if rel.len() == 0 {
            rel
        } else {
            rel + "/"@
        },
        None => Seq::empty(),
    }
}

/// The path of a directory below another, with a slash behind it.
pub fn prefix_below(dir: &str, home: &str) -> (r: String)
    ensures
        r@ == prefix_in(dir@, home@),
{
    match path::strip_base(dir, home) {
        Some(rel) => if rel.as_str().is_empty() {
            rel
        } else {
            text::cat2(rel.as_str(), "/")
        },
        None => String::new(),
    }
}

/// The path of a crate below its repo, with a slash behind it; empty for the repo itself.
pub open spec fn prefix_of(info: CrateInfo) -> Seq<char> {
    prefix_in(crate_dir(info).unwrap(), repo_home(info).unwrap())
}

/// Whether both directories of a crate are known.
pub open spec fn has_dirs(info: CrateInfo) -> bool {
    crate_dir(info) is Some && repo_home(info) is Some
}

/// Get the repo directory and relative path prefix for a crate, where its paths have parents.
pub fn crate_paths(info: &CrateInfo) -> (r: Option<(String, String)>)
    ensures
        match r {
            Some((home, prefix)) => has_dirs(*info) && Some(home@) == repo_home(*info)
                && prefix@ == prefix_of(*info),
            None => !has_dirs(*info),
        },
{
    let dir = path::parent_of(info.manifest_path.as_str())?;
    let home = match &info.workspace_root {
        Some(ws) => path::parent_of(ws.as_str())?,
        None => dir.clone(),
    };
    let prefix = prefix_below(dir.as_str(), home.as_str());
    Some((home, prefix))
}

/// What a diff is limited to when all sources of a crate count.
pub open spec fn source_limit(prefix: Seq<char>) -> Seq<char> {
    if prefix.len() == 0 {
        "."@
    } else {
        prefix
    }
}

/// What a diff is limited to: the crate, or only what lies under its `src/`.
pub fn diff_limit(prefix: &str, src_only: bool) -> (r: String)
    ensures
        r@ == (if src_only {
            prefix@ + "src/"@
        } else {
            source_limit(prefix@)
        }),
{
    if src_only {
        text::cat2(prefix, "src/")
    } else if prefix.is_empty() {
        ".".to_string()
    } else {
        prefix.to_string()
    }
}

/// The range from a tag to the current head.
pub fn range_since(tag: &str) -> (r: String)
    ensures
        r@ == tag@ + "..HEAD"@,
{
    text::cat2(tag, "..HEAD")
}

/// What a name that is a tag or a version stands for.
#[derive(Debug, Clone, Copy, PartialEq, Eq, Structural)]
pub enum Reference {
    /// A tag, as it is.
    Tag,
    /// A version: its tag has to be looked for.
    Version,
    /// Neither: the tag of the current version has to be looked for.
    Current,
}

/// What a name stands for in the repo of a crate.
pub open spec fn reference_kind(name: Seq<char>, crate_name: Seq<char>) -> Reference {
    if "v"@.is_prefix_of(name) || (crate_name + "-"@).is_prefix_of(name) {
        Reference::Tag
    } else if name.contains('.') {
        Reference::Version
    } else if name.contains('-') {
        Reference::Tag
    } else {
        Reference::Current
    }
}

/// Tell a tag from a published version.
pub fn resolve_reference(name: &str, crate_name: &str) -> (r: Reference)
    ensures
        r == reference_kind(name@, crate_name@),
{
    let lead = text::cat2(crate_name, "-");
    if text::leads_with(name, "v") || text::leads_with(name, lead.as_str()) {
        Reference::Tag
    } else if text::contains_char(name, '.') {
        Reference::Version
    } else if text::contains_char(name, '-') {
        Reference::Tag
    } else {
        Reference::Current
    }
}

/// A diff summary cut down to ten lines, and behind them its last line.
pub open spec fn condensed(lines: Seq<Seq<char>>) -> Seq<Seq<char>> {
    if lines.len() > 10 {
        lines.take(10) + seq!["..."@, lines.last()]
    } else {
        lines
    }
}

/// Cut a diff summary down to ten lines, and behind them its last line.
pub fn condense_diff(stdout: &str) -> (r: Vec<String>)
    ensures
        text::texts(r@) == condensed(text::lines(stdout@)),
{
    let ls = text::lines_of(stdout);
    let ghost all = text::lines(stdout@);
    if ls.len() <= 10 {
        assert(all.len() == ls.len());
        return ls;
    }
    let mut out: Vec<String> = Vec::new();
    let mut i: usize = 0;
    assert(text::texts(out@) =~= all.take(0));
    while i < 10
        invariant
            i <= 10 < ls.len(),
            all == text::texts(ls@),
            text::texts(out@) == all.take(i as int),
        decreases 10 - i,
    {
        out.push(ls[i].clone());
        assert(all.take(i + 1) =~= all.take(i as int).push(ls@[i as int]@));
        i += 1;
    }
    out.push("...".to_string());
    out.push(ls[ls.len() - 1].clone());
    assert(text::texts(out@) =~= condensed(all));
    out
}

/// What blocks publishing is each dependency between publishable crates that has a path and no
/// version, in whichever section.
pub proof fn law_blockers_are_found(eco: Ecosystem, n: nat)
    ensures
        blockers_upto(eco, n) == Seq::new(n, |i: int| i).filter(
            |i: int|
                eco.crates.has(eco.deps@[i].from_crate@)
                    && eco.crates@[eco.deps@[i].from_crate@].publishable
                    && eco.crates.has(eco.deps@[i].to_crate@)
                    && eco.crates@[eco.deps@[i].to_crate@].publishable
                    && eco.deps@[i].has_path && !eco.deps@[i].has_version,
        ),
    decreases n,
{
    reveal(Seq::filter);
    let all = Seq::new(n, |i: int| i);
    if n > 0 {
        law_blockers_are_found(eco, (n - 1) as nat);
        assert(all.drop_last() =~= Seq::new((n - 1) as nat, |i: int| i));
        assert(all.last() == n - 1);
    } else {
        assert(all =~= Seq::<int>::empty());
    }
}

/// The places of a standing are all where it stands.
pub proof fn law_standings_are_grouped(all_standings: Seq<Standing>, s: Standing, n: nat)
    ensures
        standing_at(all_standings, s, n) == Seq::new(n, |i: int| i).filter(
            |i: int| all_standings[i] == s,
        ),
    decreases n,
{
    reveal(Seq::filter);
    let all = Seq::new(n, |i: int| i);
    if n > 0 {
        law_standings_are_grouped(all_standings, s, (n - 1) as nat);
        assert(all.drop_last() =~= Seq::new((n - 1) as nat, |i: int| i));
        assert(all.last() == n - 1);
    } else {
        assert(all =~= Seq::<int>::empty());
    }
}

/// A crate that the registry does not know was never published. One that it knows under the
/// repository of someone else is a fork of theirs, whatever its version. Of the others, one with
/// another version than the registry has is ready to be published.
pub proof fn law_standing(
    version: Seq<char>,
    published: Option<(Seq<char>, Seq<char>)>,
    orgs: Seq<Seq<char>>,
)
    ensures
        standing(version, published, orgs) == Standing::NeverPublished <==> published is None,
        standing(version, published, orgs) == Standing::ExternalFork <==> published is Some
            && !is_owned(published.unwrap().1, orgs),
        standing(version, published, orgs) == Standing::Ready <==> published is Some && is_owned(
            published.unwrap().1,
            orgs,
        ) && published.unwrap().0 != version,
        standing(version, published, orgs) == Standing::SameVersion <==> published is Some
            && is_owned(published.unwrap().1, orgs) && published.unwrap().0 == version,
{
}

/// A crate without a repository URL counts as owned; one with a URL where it lies on GitHub below
/// one of the orgs, whatever the case of the letters.
pub proof fn law_owned_repos(repo_url: Seq<char>, orgs: Seq<Seq<char>>)
    ensures
        is_owned(repo_url, orgs) <==> repo_url =~= ""@ || exists|i: int|
            0 <= i < orgs.len() && (text::occurs(
                lowercased(repo_url),
                "github.com/"@ + lowercased(#[trigger] orgs[i]) + "/"@,
            ) || text::occurs(
                lowercased(repo_url),
                "github.com/"@ + lowercased(orgs[i]) + "."@,
            )),
{
    reveal_strlit("");
    assert(""@.len() == 0);
}

/// The tag of a version is the first that exists of the one with the crate's name and a `v`, the
/// one with a `v` alone and the one with the crate's name alone.
pub proof fn law_tags_in_order(name: Seq<char>, version: Seq<char>, exists_at: Seq<bool>)
    requires
        exists_at.len() == 3,
    ensures
        first_existing(tags_for(name, version), exists_at, 0) == if exists_at[0] {
            Some(name + "-v"@ + version)
        } else if exists_at[1] {
            Some("v"@ + version)
        } else if exists_at[2] {
            Some(name + "-"@ + version)
        } else {
            None
        },
{
    reveal_with_fuel(first_existing, 4);
}

/// A crate's repo is where its workspace lies, or where the crate itself does.
pub proof fn law_repo_of_a_crate(info: CrateInfo)
    ensures
        info.workspace_root is Some ==> repo_home(info) == path::parent(
            info.workspace_root.unwrap()@,
        ),
        info.workspace_root is None ==> repo_home(info) == path::parent(info.manifest_path@),
{
}

/// The prefix of a crate, put behind its repo, leads to the crate: it is what lies between them,
/// with a slash behind it, and empty where they are one.
pub proof fn law_prefix_leads_down(dir: Seq<char>, home: Seq<char>)
    ensures
        prefix_in(dir, home).len() > 0 ==> path::beneath(dir, home) is Some && prefix_in(dir, home)
            == path::beneath(dir, home).unwrap() + "/"@,
        path::beneath(dir, home) is Some && path::beneath(dir, home).unwrap().len() > 0
            ==> prefix_in(dir, home).len() > 0,
        source_limit(prefix_in(dir, home)).len() > 0,
{
    reveal_strlit("/");
    reveal_strlit(".");
    assert("/"@.len() == 1 && "."@.len() == 1);
}

/// A name with a dot stands for a version unless it starts as tags do; without one it stands for a
/// tag where it starts with a `v` or has a hyphen, else for the current version.
pub proof fn law_references(name: Seq<char>, crate_name: Seq<char>)
    ensures
        reference_kind(name, crate_name) == Reference::Version ==> name.contains('.'),
        reference_kind(name, crate_name) == Reference::Current ==> !name.contains('.')
            && !name.contains('-') && !"v"@.is_prefix_of(name),
        "v"@.is_prefix_of(name) ==> reference_kind(name, crate_name) == Reference::Tag,
        (crate_name + "-"@).is_prefix_of(name) ==> reference_kind(name, crate_name)
            == Reference::Tag,
        !"v"@.is_prefix_of(name) && !(crate_name + "-"@).is_prefix_of(name) && name.contains('.')
            ==> reference_kind(name, crate_name) == Reference::Version,
        !name.contains('.') && name.contains('-') ==> reference_kind(name, crate_name)
            == Reference::Tag,
        !name.contains('.') && !name.contains('-') && !"v"@.is_prefix_of(name)
            ==> reference_kind(name, crate_name) == Reference::Current,
{
    reveal_strlit("-");
    assert((crate_name + "-"@).len() > 0 && (crate_name + "-"@).last() == '-');
    if (crate_name + "-"@).is_prefix_of(name) {
        assert(name[crate_name.len() as int] == (crate_name + "-"@)[crate_name.len() as int]);
        assert(name.contains('-'));
    }
}

/// The registry's version is the word behind the last line that starts with its key, and the
/// repository what stands behind the last line with that one.
pub proof fn law_registry_lines(lines: Seq<Seq<char>>, line: Seq<char>)
    ensures
        ({
            let now = info_in(lines.push(line));
            let version = text::after_prefix(text::trim(line), "version:"@);
            let repo = text::after_prefix(text::trim(line), "repository:"@);
            &&& version matches Some(v) ==> now.0 == Some(text::leading_word(text::trim(v)))
                && now.1
                == info_in(lines).1
            &&& version is None ==> now.0 == info_in(lines).0
            &&& version is None && repo is Some ==> now.1 == text::trim(repo.unwrap())
            &&& version is None && repo is None ==> now == info_in(lines)
        }),
{
    assert(lines.push(line).drop_last() =~= lines);
}

/// A short summary of a diff is kept whole; of a long one, the first ten lines and the last.
pub proof fn law_condensed(lines: Seq<Seq<char>>, i: int)
    ensures
        lines.len() <= 10 ==> condensed(lines) == lines,
        lines.len() > 10 ==> condensed(lines).len() == 12 && condensed(lines).last()
            == lines.last() && condensed(lines)[10] == "..."@,
        lines.len() > 10 && 0 <= i < 10 ==> condensed(lines)[i] == lines[i],
{
}

/// A crate is known to the registry where a version was read, with or without a repository.
pub proof fn law_registry_answers(stdout: Seq<char>)
    ensures
        registry_info(stdout) is Some <==> info_in(text::lines(stdout)).0 is Some,
        registry_info(stdout) matches Some((version, repo)) ==> Some(version) == info_in(
            text::lines(stdout),
        ).0 && repo == info_in(text::lines(stdout)).1,
{
}

} // verus!
