//! CI, pull requests and issues of all repos, from one GraphQL query per batch.

use vstd::prelude::*;
use vstd::string::*;

use crate::audit;
use crate::config::SuperworkConfig;
use crate::discover;
use crate::discover::Ecosystem;
use crate::group;
use crate::json;
use crate::json::{Json, Model};
use crate::path;
use crate::text;

verus! {

broadcast use text::lemma_texts_push;

/// Maximum repos per GraphQL request (GitHub node limits).
pub const BATCH_SIZE: usize = 40;

/// A repo as the query names it.
pub struct RepoSlug {
    /// GraphQL alias (sanitized for identifier rules)
    pub alias: String,
    /// Display name (e.g. "zenwebp")
    pub display: String,
    /// owner/repo slug (e.g. "imazen/zenwebp")
    pub slug: String,
}

pub struct RepoResult {
    pub display: String,
    pub ci_state: Option<String>,
    /// The number of pull requests, as it is written.
    pub pr_count: String,
    /// The number of issues, as it is written.
    pub issue_count: String,
    pub prs: Vec<PrInfo>,
    pub issues: Vec<IssueInfo>,
}

pub struct PrInfo {
    pub repo: String,
    /// The number, as it is written.
    pub number: String,
    pub branch: String,
    pub title: String,
    pub author: String,
}

pub struct IssueInfo {
    pub repo: String,
    /// The number, as it is written.
    pub number: String,
    pub title: String,
}

// ── Aliases ──

/// Whether a character is one of the letters `a` to `z` and `A` to `Z` or one of the digits.
pub open spec fn is_plain(c: char) -> bool {
    'a' <= c <= 'z' || 'A' <= c <= 'Z' || text::is_digit(c)
}

/// Whether a text is a GraphQL name: letters, digits and underscores, with no digit in front.
pub open spec fn is_graphql_name(s: Seq<char>) -> bool {
    &&& s.len() > 0
    &&& !text::is_digit(s[0])
    &&& forall|i: int| 0 <= i < s.len() ==> is_plain(#[trigger] s[i]) || s[i] == '_'
}

/// A name with everything but letters and digits turned into underscores.
pub open spec fn underscored(name: Seq<char>) -> Seq<char> {
    name.map_values(
        |c: char|
            if is_plain(c) {
                c
            } else {
                '_'
            },
    )
}

/// The alias of a name: underscored, with an `r` before a leading digit.
pub open spec fn alias_of(name: Seq<char>) -> Seq<char> {
    if name.len() > 0 && text::is_digit(underscored(name)[0]) {
        seq!['r'] + underscored(name)
    } else {
        underscored(name)
    }
}

/// The alias of a name is a GraphQL name.
pub proof fn law_alias_is_a_graphql_name(name: Seq<char>)
    requires
        name.len() > 0,
    ensures
        is_graphql_name(alias_of(name)),
{
    assert forall|i: int| 0 <= i < alias_of(name).len() implies is_plain(
        #[trigger] alias_of(name)[i],
    ) || alias_of(name)[i] == '_' by {
        if alias_of(name) != underscored(name) && i > 0 {
            assert(alias_of(name)[i] == underscored(name)[i - 1]);
        }
    }
}

/// Sanitize a repo name into a valid GraphQL alias.
/// Replace what is neither an ASCII letter nor digit with `_`, prefix with `r` if it starts with a digit.
pub fn sanitize_alias(name: &str) -> (r: String)
    ensures
        r@ == alias_of(name@),
{
    let cs = text::chars_of(name);
    let mut body = String::new();
    let mut lead_digit = false;
    let mut i: usize = 0;
    assert(body@ =~= underscored(cs@).take(0));
    while i < cs.len()
        invariant
            i <= cs.len(),
            body@ == underscored(cs@).take(i as int),
            lead_digit == (i > 0 && text::is_digit(underscored(cs@)[0])),
        decreases cs.len() - i,
    {
        let plain = 'a' <= cs[i] && cs[i] <= 'z' || 'A' <= cs[i] && cs[i] <= 'Z' || '0' <= cs[i]
            && cs[i] <= '9';
        let c = if plain {
            cs[i]
        } else {
            '_'
        };
        assert(underscored(cs@)[i as int] == c);
        if i == 0 && '0' <= c && c <= '9' {
            lead_digit = true;
        }
        body.push(c);
        assert(underscored(cs@).take(i + 1) =~= underscored(cs@).take(i as int).push(c));
        i += 1;
    }
    assert(underscored(cs@).take(i as int) =~= underscored(cs@));
    if lead_digit {
        let mut out = String::new();
        out.push('r');
        out.append(body.as_str());
        assert(out@ =~= seq!['r'] + underscored(name@));
        out
    } else {
        body
    }
}

// ── Which repos ──

/// The name that a repo is shown by.
pub open spec fn display_of(repo_dir: Seq<char>) -> Seq<char> {
    match path::file_name(repo_dir) {
        Some(n) => n,
        None => repo_dir,
    }
}

/// The slug of a repo: what follows the host in its URL.
pub open spec fn slug_for(config: SuperworkConfig, repo_dir: Seq<char>) -> Option<Seq<char>> {
    match config.url_of(repo_dir) {
        Some(url) => audit::slug(url),
        None => None,
    }
}

/// What a list of slugs says: alias, display name and slug.
pub open spec fn slug_texts(v: Seq<RepoSlug>) -> Seq<(Seq<char>, Seq<char>, Seq<char>)> {
    v.map_values(|s: RepoSlug| (s.alias@, s.display@, s.slug@))
}

/// The repos of a list that have a slug.
pub open spec fn slugs_for(config: SuperworkConfig, dirs: Seq<Seq<char>>) -> Seq<
    (Seq<char>, Seq<char>, Seq<char>),
>
    decreases dirs.len(),
{
    if dirs.len() == 0 {
        Seq::empty()
    } else {
        let before = slugs_for(config, dirs.drop_last());
        match slug_for(config, dirs.last()) {
            Some(s) => before.push(
                (alias_of(display_of(dirs.last())), display_of(dirs.last()), s),
            ),
            None => before,
        }
    }
}

fn read_slugs(config: &SuperworkConfig, dirs: &Vec<String>) -> (r: Vec<RepoSlug>)
    ensures
        slug_texts(r@) == slugs_for(*config, text::texts(dirs@)),
{
    let ghost ds = text::texts(dirs@);
    let mut out: Vec<RepoSlug> = Vec::new();
    let mut i: usize = 0;
    assert(ds.take(0) =~= Seq::<Seq<char>>::empty());
    assert(slug_texts(out@) =~= slugs_for(*config, ds.take(0)));
    while i < dirs.len()
        invariant
            i <= dirs.len(),
            ds == text::texts(dirs@),
            slug_texts(out@) == slugs_for(*config, ds.take(i as int)),
        decreases dirs.len() - i,
    {
        assert(ds.take(i + 1).drop_last() =~= ds.take(i as int));
        assert(ds.take(i + 1).last() == dirs@[i as int]@);
        let dir = dirs[i].as_str();
        let slug = match config.github_url_for(dir) {
            Some(url) => audit::slug_of(url.as_str()),
            None => None,
        };
        if let Some(slug) = slug {
            let display = match path::file_name_of(dir) {
                Some(n) => n,
                None => dirs[i].clone(),
            };
            let alias = sanitize_alias(display.as_str());
            let ghost sofar = slug_texts(out@);
            let ghost row = (alias@, display@, slug@);
            out.push(RepoSlug { alias, display, slug });
            assert(slug_texts(out@) =~= sofar.push(row));
        }
        i += 1;
    }
    assert(ds.take(i as int) =~= ds);
    out
}

/// Whether `dirs` lists the repo directories of the ecosystem in order, each once.
pub open spec fn are_repo_dirs(eco: Ecosystem, dirs: Seq<Seq<char>>) -> bool {
    text::strictly_ordered(dirs) && forall|d: Seq<char>| #[trigger]
        dirs.contains(d) <==> discover::repo_dirs(eco.crates).contains(d)
}

/// Collect the repos that have a GitHub slug, in the order of their directories.
pub fn collect_slugs(eco: &Ecosystem, config: &SuperworkConfig) -> (r: Vec<RepoSlug>)
    ensures
        exists|dirs: Seq<Seq<char>>| #[trigger]
            are_repo_dirs(*eco, dirs) && slug_texts(r@) == slugs_for(*config, dirs),
{
    let groups = discover::crates_by_repo(eco);
    let ghost keys = group::group_keys(groups@);
    let mut dirs: Vec<String> = Vec::new();
    let mut i: usize = 0;
    assert(text::texts(dirs@) =~= keys.take(0));
    while i < groups.len()
        invariant
            i <= groups.len(),
            keys == group::group_keys(groups@),
            text::texts(dirs@) == keys.take(i as int),
        decreases groups.len() - i,
    {
        dirs.push(groups[i].key.clone());
        assert(keys.take(i + 1) =~= keys.take(i as int).push(groups@[i as int].key@));
        i += 1;
    }
    assert(keys.take(i as int) =~= keys);
    assert(are_repo_dirs(*eco, keys));
    read_slugs(config, &dirs)
}

// ── The query ──

/// What is asked of each repo.
pub open spec fn fragment() -> Seq<char> {
    "fragment F on Repository {\n  nameWithOwner\n  defaultBranchRef {\n    name\n    target {\n      ... on Commit {\n        statusCheckRollup {\n          state\n        }\n      }\n    }\n  }\n  pullRequests(first: 5, states: OPEN, orderBy: {field: UPDATED_AT, direction: DESC}) {\n    totalCount\n    nodes {\n      number\n      title\n      author { login }\n      updatedAt\n      headRefName\n    }\n  }\n  issues(first: 5, states: OPEN, orderBy: {field: UPDATED_AT, direction: DESC}) {\n    totalCount\n    nodes {\n      number\n      title\n      updatedAt\n    }\n  }\n}"@
}

/// The lines that ask for the repos whose slug has an owner and a name.
pub open spec fn fields(repos: Seq<RepoSlug>) -> Seq<char>
    decreases repos.len(),
{
    if repos.len() == 0 {
        Seq::empty()
    } else {
        let before = fields(repos.drop_last());
        let repo = repos.last();
        match text::cut(repo.slug@, '/') {
            Some((owner, name)) => before + "  "@ + repo.alias@ + ": repository(owner: \""@ + owner
                + "\", name: \""@ + name + "\") { ...F }\n"@,
            None => before,
        }
    }
}

/// Build the query for a batch of repos.
pub fn build_query(repos: &Vec<RepoSlug>) -> (r: String)
    ensures
        r@ == fragment() + "\n{\n"@ + fields(repos@) + "}"@,
{
    let mut lines = String::new();
    let mut i: usize = 0;
    assert(repos@.take(0) =~= Seq::<RepoSlug>::empty());
    assert(lines@ =~= Seq::<char>::empty());
    while i < repos.len()
        invariant
            i <= repos.len(),
            lines@ == fields(repos@.take(i as int)),
        decreases repos.len() - i,
    {
        assert(repos@.take(i + 1).drop_last() =~= repos@.take(i as int));
        let repo = &repos[i];
        if let Some((owner, name)) = text::cut_at(repo.slug.as_str(), '/') {
            lines.append("  ");
            lines.append(repo.alias.as_str());
            lines.append(": repository(owner: \"");
            lines.append(owner.as_str());
            lines.append("\", name: \"");
            lines.append(name.as_str());
            lines.append("\") { ...F }\n");
        }
        i += 1;
    }
    assert(repos@.take(i as int) =~= repos@);
    let mut out = "fragment F on Repository {\n  nameWithOwner\n  defaultBranchRef {\n    name\n    target {\n      ... on Commit {\n        statusCheckRollup {\n          state\n        }\n      }\n    }\n  }\n  pullRequests(first: 5, states: OPEN, orderBy: {field: UPDATED_AT, direction: DESC}) {\n    totalCount\n    nodes {\n      number\n      title\n      author { login }\n      updatedAt\n      headRefName\n    }\n  }\n  issues(first: 5, states: OPEN, orderBy: {field: UPDATED_AT, direction: DESC}) {\n    totalCount\n    nodes {\n      number\n      title\n      updatedAt\n    }\n  }\n}".to_string();
    out.append("\n{\n");
    out.append(lines.as_str());
    out.append("}");
    out
}

// ── The answer ──

#[verifier::ext_equal]
pub struct PrModel {
    pub repo: Seq<char>,
    pub number: Seq<char>,
    pub branch: Seq<char>,
    pub title: Seq<char>,
    pub author: Seq<char>,
}

#[verifier::ext_equal]
pub struct IssueModel {
    pub repo: Seq<char>,
    pub number: Seq<char>,
    pub title: Seq<char>,
}

#[verifier::ext_equal]
pub struct RepoModel {
    pub display: Seq<char>,
    pub ci_state: Option<Seq<char>>,
    pub pr_count: Seq<char>,
    pub issue_count: Seq<char>,
    pub prs: Seq<PrModel>,
    pub issues: Seq<IssueModel>,
}

impl PrInfo {
    pub open spec fn model(self) -> PrModel {
        PrModel {
            repo: self.repo@,
            number: self.number@,
            branch: self.branch@,
            title: self.title@,
            author: self.author@,
        }
    }
}

impl IssueInfo {
    pub open spec fn model(self) -> IssueModel {
        IssueModel { repo: self.repo@, number: self.number@, title: self.title@ }
    }
}

pub open spec fn pr_models(v: Seq<PrInfo>) -> Seq<PrModel> {
    v.map_values(|p: PrInfo| p.model())
}

pub open spec fn issue_models(v: Seq<IssueInfo>) -> Seq<IssueModel> {
    v.map_values(|p: IssueInfo| p.model())
}

impl RepoResult {
    pub open spec fn model(self) -> RepoModel {
        RepoModel {
            display: self.display@,
            ci_state: text::opt(self.ci_state),
            pr_count: self.pr_count@,
            issue_count: self.issue_count@,
            prs: pr_models(self.prs@),
            issues: issue_models(self.issues@),
        }
    }
}

pub open spec fn result_models(v: Seq<RepoResult>) -> Seq<RepoModel> {
    v.map_values(|p: RepoResult| p.model())
}

pub open spec fn or_else(s: Option<Seq<char>>, default: Seq<char>) -> Seq<char> {
    match s {
        Some(t) => t,
        None => default,
    }
}

/// The number at a key, zero where there is none.
pub open spec fn count_at(m: Model, key: Seq<char>) -> Seq<char> {
    or_else(json::number_of(json::member(m, key)), "0"@)
}

/// The text at a key, empty where there is none.
pub open spec fn text_at(m: Model, key: Seq<char>) -> Seq<char> {
    or_else(json::string_of(json::member(m, key)), Seq::empty())
}

pub open spec fn pr_of(node: Model, display: Seq<char>) -> PrModel {
    PrModel {
        repo: display,
        number: count_at(node, "number"@),
        branch: text_at(node, "headRefName"@),
        title: text_at(node, "title"@),
        author: or_else(
            json::string_of(json::member(json::member(node, "author"@), "login"@)),
            "?"@,
        ),
    }
}

pub open spec fn issue_of(node: Model, display: Seq<char>) -> IssueModel {
    IssueModel {
        repo: display,
        number: count_at(node, "number"@),
        title: text_at(node, "title"@),
    }
}

/// The nodes of a connection.
pub open spec fn nodes(m: Model) -> Seq<Model> {
    json::elements(json::member(m, "nodes"@))
}

/// What the answer says of a repo; nothing but its name where it is missing.
pub open spec fn repo_of(repo: Model, display: Seq<char>) -> RepoModel {
    if repo == Model::Null {
        RepoModel {
            display,
            ci_state: None,
            pr_count: "0"@,
            issue_count: "0"@,
            prs: Seq::empty(),
            issues: Seq::empty(),
        }
    } else {
        let prs = json::member(repo, "pullRequests"@);
        let issues = json::member(repo, "issues"@);
        RepoModel {
            display,
            ci_state: json::string_of(
                json::member(
                    json::member(
                        json::member(json::member(repo, "defaultBranchRef"@), "target"@),
                        "statusCheckRollup"@,
                    ),
                    "state"@,
                ),
            ),
            pr_count: count_at(prs, "totalCount"@),
            issue_count: count_at(issues, "totalCount"@),
            prs: Seq::new(nodes(prs).len(), |i: int| pr_of(nodes(prs)[i], display)),
            issues: Seq::new(nodes(issues).len(), |i: int| issue_of(nodes(issues)[i], display)),
        }
    }
}

/// What the answer says of a batch of repos.
pub open spec fn batch_of(data: Model, repos: Seq<RepoSlug>) -> Seq<RepoModel> {
    Seq::new(
        repos.len(),
        |i: int| repo_of(json::member(data, repos[i].alias@), repos[i].display@),
    )
}

fn string_or(s: Option<String>, default: &str) -> (r: String)
    ensures
        r@ == or_else(text::opt(s), default@),
{
    match s {
        Some(t) => t,
        None => default.to_string(),
    }
}

fn string_or_none(s: Option<String>) -> (r: String)
    ensures
        r@ == or_else(text::opt(s), Seq::empty()),
{
    match s {
        Some(t) => t,
        None => {
            let none = String::new();
            assert(none@ =~= Seq::<char>::empty());
            none
        },
    }
}

fn read_prs(list: Option<&Json>, display: &str) -> (r: Vec<PrInfo>)
    ensures
        pr_models(r@) == Seq::new(
            nodes(json::model_of(list)).len(),
            |i: int| pr_of(nodes(json::model_of(list))[i], display@),
        ),
{
    let mut out: Vec<PrInfo> = Vec::new();
    let ghost all = nodes(json::model_of(list));
    let ghost whole = Seq::new(all.len(), |i: int| pr_of(all[i], display@));
    match json::get_in(list, "nodes") {
        Some(Json::Array(a)) => {
            proof {
                json::lemma_models(a@);
            }
            let mut i: usize = 0;
            assert(pr_models(out@) =~= whole.take(0));
            while i < a.len()
                invariant
                    i <= a.len(),
                    all == json::models(a@),
                    all.len() == a.len(),
                    pr_models(out@) == whole.take(i as int),
                decreases a.len() - i,
            {
                let node = Some(&a[i]);
                assert(json::models(a@)[i as int] == a@[i as int].model());
                assert(all[i as int] == json::model_of(node));
                let pr = PrInfo {
                    repo: display.to_string(),
                    number: string_or(json::as_number(json::get_in(node, "number")), "0"),
                    branch: string_or_none(json::as_string(json::get_in(node, "headRefName"))),
                    title: string_or_none(json::as_string(json::get_in(node, "title"))),
                    author: string_or(
                        json::as_string(json::get_in(json::get_in(node, "author"), "login")),
                        "?",
                    ),
                };
                let ghost sofar = pr_models(out@);
                let ghost m = pr.model();
                assert(m == whole[i as int]);
                out.push(pr);
                assert(pr_models(out@) =~= sofar.push(m));
                assert(whole.take(i + 1) =~= whole.take(i as int).push(m));
                i += 1;
            }
            assert(whole.take(i as int) =~= whole);
        },
        _ => {
            assert(pr_models(out@) =~= whole);
        },
    }
    out
}

fn read_issues(list: Option<&Json>, display: &str) -> (r: Vec<IssueInfo>)
    ensures
        issue_models(r@) == Seq::new(
            nodes(json::model_of(list)).len(),
            |i: int| issue_of(nodes(json::model_of(list))[i], display@),
        ),
{
    let mut out: Vec<IssueInfo> = Vec::new();
    let ghost all = nodes(json::model_of(list));
    let ghost whole = Seq::new(all.len(), |i: int| issue_of(all[i], display@));
    match json::get_in(list, "nodes") {
        Some(Json::Array(a)) => {
            proof {
                json::lemma_models(a@);
            }
            let mut i: usize = 0;
            assert(issue_models(out@) =~= whole.take(0));
            while i < a.len()
                invariant
                    i <= a.len(),
                    all == json::models(a@),
                    all.len() == a.len(),
                    issue_models(out@) == whole.take(i as int),
                decreases a.len() - i,
            {
                let node = Some(&a[i]);
                assert(json::models(a@)[i as int] == a@[i as int].model());
                assert(all[i as int] == json::model_of(node));
                let issue = IssueInfo {
                    repo: display.to_string(),
                    number: string_or(json::as_number(json::get_in(node, "number")), "0"),
                    title: string_or_none(json::as_string(json::get_in(node, "title"))),
                };
                let ghost sofar = issue_models(out@);
                let ghost m = issue.model();
                assert(m == whole[i as int]);
                out.push(issue);
                assert(issue_models(out@) =~= sofar.push(m));
                assert(whole.take(i + 1) =~= whole.take(i as int).push(m));
                i += 1;
            }
            assert(whole.take(i as int) =~= whole);
        },
        _ => {
            assert(issue_models(out@) =~= whole);
        },
    }
    out
}

fn is_null(v: Option<&Json>) -> (r: bool)
    ensures
        r == (json::model_of(v) == Model::Null),
{
    match v {
        None => true,
        Some(Json::Null) => true,
        _ => false,
    }
}

fn read_repo(repo: Option<&Json>, display: &str) -> (r: RepoResult)
    ensures
        r.model() == repo_of(json::model_of(repo), display@),
{
    if is_null(repo) {
        let r = RepoResult {
            display: display.to_string(),
            ci_state: None,
            pr_count: "0".to_string(),
            issue_count: "0".to_string(),
            prs: Vec::new(),
            issues: Vec::new(),
        };
        assert(pr_models(r.prs@) =~= Seq::<PrModel>::empty());
        assert(issue_models(r.issues@) =~= Seq::<IssueModel>::empty());
        return r;
    }
    let target = json::get_in(json::get_in(repo, "defaultBranchRef"), "target");
    let state = json::get_in(json::get_in(target, "statusCheckRollup"), "state");
    let prs = json::get_in(repo, "pullRequests");
    let issues = json::get_in(repo, "issues");
    RepoResult {
        display: display.to_string(),
        ci_state: json::as_string(state),
        pr_count: string_or(json::as_number(json::get_in(prs, "totalCount")), "0"),
        issue_count: string_or(json::as_number(json::get_in(issues, "totalCount")), "0"),
        prs: read_prs(prs, display),
        issues: read_issues(issues, display),
    }
}

/// Read what the answer says of each repo of a batch.
pub fn parse_results(json_str: &str, repos: &Vec<RepoSlug>, results: &mut Vec<RepoResult>) -> (r:
    Result<(), String>)
    ensures
        match json::parsed(json_str@) {
            Ok(m) => r is Ok && result_models(final(results)@) == result_models(old(results)@)
                + batch_of(json::member(m, "data"@), repos@),
            Err(e) => r is Err && r->Err_0@ == "JSON parse error: "@ + e && *final(results) == *old(
                results,
            ),
        },
{
    let answer = match json::parse_json(json_str) {
        Ok(v) => v,
        Err(e) => return Err(text::cat2("JSON parse error: ", e.as_str())),
    };
    let data = answer.get("data");
    let ghost start = result_models(results@);
    let ghost whole = batch_of(json::model_of(data), repos@);
    let mut i: usize = 0;
    assert(result_models(results@) =~= start + whole.take(0));
    while i < repos.len()
        invariant
            i <= repos.len(),
            whole == batch_of(json::model_of(data), repos@),
            result_models(results@) == start + whole.take(i as int),
        decreases repos.len() - i,
    {
        let repo = read_repo(
            json::get_in(data, repos[i].alias.as_str()),
            repos[i].display.as_str(),
        );
        let ghost m = repo.model();
        let ghost sofar = result_models(results@);
        assert(m == whole[i as int]);
        results.push(repo);
        assert(result_models(results@) =~= sofar.push(m));
        assert(start + whole.take(i + 1) =~= (start + whole.take(i as int)).push(m));
        i += 1;
    }
    assert(whole.take(i as int) =~= whole);
    Ok(())
}

// ── The table ──

/// How CI is shown.
#[derive(Debug, Clone, Copy, PartialEq, Eq, Structural)]
pub enum CiIcon {
    Green,
    Waiting,
    Red,
    Absent,
}

pub open spec fn icon_of(state: Option<Seq<char>>) -> CiIcon {
    match state {
        None => CiIcon::Absent,
        Some(s) => if s == "SUCCESS"@ {
            CiIcon::Green
        } else if s == "PENDING"@ || s == "EXPECTED"@ {
            CiIcon::Waiting
        } else {
            CiIcon::Red
        },
    }
}

/// How CI is shown.
pub fn ci_icon(state: &Option<String>) -> (r: CiIcon)
    ensures
        r == icon_of(text::opt(*state)),
{
    match state {
        None => CiIcon::Absent,
        Some(s) => {
            if text::same(s.as_str(), "SUCCESS") {
                CiIcon::Green
            } else if text::same(s.as_str(), "PENDING") || text::same(s.as_str(), "EXPECTED") {
                CiIcon::Waiting
            } else {
                CiIcon::Red
            }
        },
    }
}

/// How many results have an icon.
pub open spec fn with_icon(results: Seq<RepoResult>, icon: CiIcon) -> nat
    decreases results.len(),
{
    if results.len() == 0 {
        0
    } else {
        with_icon(results.drop_last(), icon) + if icon_of(text::opt(results.last().ci_state))
            == icon {
            1nat
        } else {
            0nat
        }
    }
}

/// How many results have an icon.
pub fn count_icon(results: &Vec<RepoResult>, icon: CiIcon) -> (r: usize)
    ensures
        r == with_icon(results@, icon),
{
    let mut n: usize = 0;
    let mut i: usize = 0;
    assert(results@.take(0) =~= Seq::<RepoResult>::empty());
    while i < results.len()
        invariant
            i <= results.len(),
            n <= i,
            n == with_icon(results@.take(i as int), icon),
        decreases results.len() - i,
    {
        assert(results@.take(i + 1).drop_last() =~= results@.take(i as int));
        if ci_icon(&results[i].ci_state) == icon {
            n += 1;
        }
        i += 1;
    }
    assert(results@.take(i as int) =~= results@);
    n
}

/// The names by which the results are shown.
pub open spec fn displays(results: Seq<RepoResult>) -> Seq<Seq<char>> {
    results.map_values(|r: RepoResult| r.display@)
}

/// The places of the results in alphabetical order.
pub fn order_results(results: &Vec<RepoResult>) -> (r: Vec<usize>)
    ensures
        group::is_sorting(displays(results@), r@),
{
    let mut names: Vec<String> = Vec::new();
    let ghost all = displays(results@);
    let mut i: usize = 0;
    assert(text::texts(names@) =~= all.take(0));
    while i < results.len()
        invariant
            i <= results.len(),
            all == displays(results@),
            text::texts(names@) == all.take(i as int),
        decreases results.len() - i,
    {
        names.push(results[i].display.clone());
        assert(all.take(i + 1) =~= all.take(i as int).push(results@[i as int].display@));
        i += 1;
    }
    assert(all.take(i as int) =~= all);
    group::sorted_places(&names)
}

/// Each repo with a slug is asked for, by the name of its directory.
pub proof fn law_repos_with_a_slug(config: SuperworkConfig, dirs: Seq<Seq<char>>)
    ensures
        slugs_for(config, dirs) == dirs.filter(
            |d: Seq<char>|
                config.url_of(d) is Some && audit::slug(config.url_of(d).unwrap()) is Some,
        ).map_values(
            |d: Seq<char>|
                (alias_of(display_of(d)), display_of(d),
                    audit::slug(config.url_of(d).unwrap()).unwrap()),
        ),
    decreases dirs.len(),
{
    reveal(Seq::filter);
    if dirs.len() > 0 {
        law_repos_with_a_slug(config, dirs.drop_last());
    }
}

/// CI is green only on success, and waits only while it is pending or expected; a repo without a
/// state has none, and any other state is red.
pub proof fn law_icons(state: Option<Seq<char>>)
    ensures
        icon_of(state) == CiIcon::Green <==> state == Some("SUCCESS"@),
        icon_of(state) == CiIcon::Waiting <==> state == Some("PENDING"@) || state == Some(
            "EXPECTED"@,
        ),
        icon_of(state) == CiIcon::Absent <==> state is None,
        icon_of(state) == CiIcon::Red <==> state is Some && state != Some("SUCCESS"@) && state
            != Some("PENDING"@) && state != Some("EXPECTED"@),
{
    reveal_strlit("SUCCESS");
    reveal_strlit("PENDING");
    reveal_strlit("EXPECTED");
    assert("SUCCESS"@[0] == 'S' && "PENDING"@[0] == 'P' && "EXPECTED"@[0] == 'E');
}

/// Each result counts under the icon of its state.
pub proof fn law_icons_are_counted(results: Seq<RepoResult>, icon: CiIcon)
    ensures
        with_icon(results, icon) == results.filter(
            |r: RepoResult| icon_of(text::opt(r.ci_state)) == icon,
        ).len(),
    decreases results.len(),
{
    reveal(Seq::filter);
    if results.len() > 0 {
        law_icons_are_counted(results.drop_last(), icon);
    }
}

/// Every repo of a batch gets a result, under its own name and from what the answer says of its
/// alias; each of its pull requests and issues is listed, in order.
pub proof fn law_batch_is_complete(data: Model, repos: Seq<RepoSlug>, i: int)
    requires
        0 <= i < repos.len(),
    ensures
        batch_of(data, repos).len() == repos.len(),
        batch_of(data, repos)[i].display == repos[i].display@,
        ({
            let repo = json::member(data, repos[i].alias@);
            let prs = json::elements(json::member(json::member(repo, "pullRequests"@), "nodes"@));
            let issues = json::elements(json::member(json::member(repo, "issues"@), "nodes"@));
            let r = batch_of(data, repos)[i];
            &&& repo == Model::Null ==> r.ci_state is None && r.prs.len() == 0 && r.issues.len()
                == 0
            &&& repo != Model::Null ==> r.prs.len() == prs.len() && r.issues.len() == issues.len()
            &&& repo != Model::Null ==> forall|k: int|
                0 <= k < prs.len() ==> (#[trigger] r.prs[k]).repo == repos[i].display@
                    && r.prs[k].title == text_at(prs[k], "title"@) && r.prs[k].branch == text_at(
                    prs[k],
                    "headRefName"@,
                ) && r.prs[k].number == count_at(prs[k], "number"@)
            &&& repo != Model::Null ==> forall|k: int|
                0 <= k < issues.len() ==> (#[trigger] r.issues[k]).repo == repos[i].display@
                    && r.issues[k].title == text_at(issues[k], "title"@) && r.issues[k].number
                    == count_at(issues[k], "number"@)
        }),
{
}

/// An alias keeps the letters and digits of a name and has an underscore for anything else, behind
/// an `r` where it would start with a digit.
pub proof fn law_aliases(name: Seq<char>, i: int)
    requires
        0 <= i < name.len(),
    ensures
        ({
            let lead: int = if text::is_digit(name[0]) {
                1
            } else {
                0
            };
            &&& alias_of(name).len() == name.len() + lead
            &&& lead == 1 ==> alias_of(name)[0] == 'r'
            &&& ('a' <= name[i] <= 'z' || 'A' <= name[i] <= 'Z' || '0' <= name[i] <= '9')
                ==> alias_of(name)[lead + i] == name[i]
            &&& !('a' <= name[i] <= 'z' || 'A' <= name[i] <= 'Z' || '0' <= name[i] <= '9')
                ==> alias_of(name)[lead + i] == '_'
        }),
{
}

/// The query asks for each repo whose slug has an owner and a name, under its alias.
pub proof fn law_every_repo_is_asked_for(repos: Seq<RepoSlug>, i: int)
    requires
        0 <= i < repos.len(),
    ensures
        text::cut(repos[i].slug@, '/') matches Some((owner, name)) ==> text::occurs(
            fields(repos),
            "  "@ + repos[i].alias@ + ": repository(owner: \""@ + owner + "\", name: \""@ + name
                + "\") { ...F }\n"@,
        ),
    decreases repos.len(),
{
    let rest = repos.drop_last();
    if let Some((owner, name)) = text::cut(repos[i].slug@, '/') {
        let line = "  "@ + repos[i].alias@ + ": repository(owner: \""@ + owner + "\", name: \""@
            + name + "\") { ...F }\n"@;
        let before = fields(rest);
        let all = fields(repos);
        if i < rest.len() {
            law_every_repo_is_asked_for(rest, i);
            assert(rest[i] == repos[i]);
            let k = choose|k: int| text::occurs_at(before, line, k);
            assert(all.subrange(0, before.len() as int) =~= before);
            assert(all.subrange(k, k + line.len()) =~= before.subrange(k, k + line.len()));
            assert(text::occurs_at(all, line, k));
        } else {
            assert(all =~= before + line);
            assert(all.subrange(before.len() as int, all.len() as int) =~= line);
            assert(all.len() == before.len() + line.len());
            assert(text::occurs_at(all, line, before.len() as int));
        }
    }
}

} // verus!
