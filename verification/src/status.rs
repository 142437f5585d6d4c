//! The state of repos and worktrees, from what git says.

use vstd::prelude::*;
use vstd::string::*;

use crate::text;

verus! {

broadcast use text::lemma_texts_push;

// ── Repos ──

/// What git says of a repo.
pub struct RepoFacts {
    pub branch: Option<String>,
    /// How many files are dirty.
    pub dirty: usize,
    /// How many commits are not pushed.
    pub unpushed: usize,
    pub has_remote: bool,
}

/// The branch as it is shown.
pub open spec fn shown_branch(branch: Option<Seq<char>>) -> Seq<char> {
    match branch {
        Some(b) => b,
        None => "???"@,
    }
}

/// Whether a branch is the main one.
pub open spec fn is_main(branch: Seq<char>) -> bool {
    branch == "main"@ || branch == "master"@
}

/// What is remarkable about a repo.
pub open spec fn repo_parts(f: RepoFacts) -> Seq<Seq<char>> {
    let branch = shown_branch(text::opt(f.branch));
    let one = if is_main(branch) {
        Seq::empty()
    } else {
        seq!["branch="@ + branch]
    };
    let two = if f.dirty > 0 {
        one.push(text::decimal(f.dirty as nat) + " dirty"@)
    } else {
        one
    };
    let three = if f.unpushed > 0 {
        two.push(text::decimal(f.unpushed as nat) + " unpushed"@)
    } else {
        two
    };
    if f.has_remote {
        three
    } else {
        three.push("no remote"@)
    }
}

/// The state of a repo in words.
pub open spec fn repo_state(f: RepoFacts) -> Seq<char> {
    if repo_parts(f).len() == 0 {
        "clean"@
    } else {
        text::join(repo_parts(f), ", "@)
    }
}

impl RepoFacts {
    /// The branch as it is shown.
    pub fn branch_name(&self) -> (r: String)
        ensures
            r@ == shown_branch(text::opt(self.branch)),
    {
        match &self.branch {
            Some(b) => b.clone(),
            None => "???".to_string(),
        }
    }

    /// Whether the repo is on its main branch.
    pub fn on_main(&self) -> (r: bool)
        ensures
            r == is_main(shown_branch(text::opt(self.branch))),
    {
        let branch = self.branch_name();
        text::same(branch.as_str(), "main") || text::same(branch.as_str(), "master")
    }

    /// The state of the repo in words.
    pub fn state(&self) -> (r: String)
        ensures
            r@ == repo_state(*self),
    {
        let mut parts: Vec<String> = Vec::new();
        assert(text::texts(parts@) =~= Seq::<Seq<char>>::empty());
        if !self.on_main() {
            let branch = self.branch_name();
            parts.push(text::cat2("branch=", branch.as_str()));
            assert(text::texts(parts@) =~= seq!["branch="@ + branch@]);
        }
        if self.dirty > 0 {
            let n = text::decimal_of(self.dirty as u64);
            parts.push(text::cat2(n.as_str(), " dirty"));
        }
        if self.unpushed > 0 {
            let n = text::decimal_of(self.unpushed as u64);
            parts.push(text::cat2(n.as_str(), " unpushed"));
        }
        if !self.has_remote {
            parts.push("no remote".to_string());
        }
        assert(text::texts(parts@).len() == parts.len());
        if parts.len() == 0 {
            "clean".to_string()
        } else {
            text::join_with(&parts, ", ")
        }
    }
}

/// How many lines of a list are not empty.
pub open spec fn nonempty_lines(lines: Seq<Seq<char>>) -> nat
    decreases lines.len(),
{
    if lines.len() == 0 {
        0
    } else {
        nonempty_lines(lines.drop_last()) + if lines.last().len() > 0 {
            1nat
        } else {
            0nat
        }
    }
}

/// How many files `git status --short` lists.
pub fn count_listed_files(stdout: &str) -> (r: usize)
    ensures
        r == nonempty_lines(text::lines(stdout@)),
{
    let ls = text::lines_of(stdout);
    let ghost all = text::lines(stdout@);
    let mut n: usize = 0;
    let mut i: usize = 0;
    assert(all.take(0) =~= Seq::<Seq<char>>::empty());
    while i < ls.len()
        invariant
            i <= ls.len(),
            all == text::texts(ls@),
            n <= i,
            n == nonempty_lines(all.take(i as int)),
        decreases ls.len() - i,
    {
        assert(all.take(i + 1).drop_last() =~= all.take(i as int));
        assert(all.take(i + 1).last() == ls@[i as int]@);
        if !ls[i].as_str().is_empty() {
            n += 1;
        }
        i += 1;
    }
    assert(all.take(i as int) =~= all);
    n
}

/// The branch that the remote's head stands on, where git names one.
pub open spec fn remote_head(symbolic: Option<&str>) -> Option<Seq<char>> {
    match symbolic {
        Some(s) => text::after_prefix(text::trim(s@), "refs/remotes/origin/"@),
        None => None,
    }
}

/// The default branch of a repo: that of the remote's head, else `main` or `master` where there
/// is one, else `main`.
pub fn git_default_branch(symbolic: Option<&str>, has_main: bool, has_master: bool) -> (r: String)
    ensures
        r@ == (match remote_head(symbolic) {
            Some(b) => b,
            None => if !has_main && has_master {
                "master"@
            } else {
                "main"@
            },
        }),
{
    if let Some(s) = symbolic {
        let t = text::trimmed(s);
        if let Some(branch) = text::strip_lead(t.as_str(), "refs/remotes/origin/") {
            return branch;
        }
    }
    if !has_main && has_master {
        "master".to_string()
    } else {
        "main".to_string()
    }
}

/// Whether a branch and its remote stand at one commit, given what git says of each.
pub fn is_branch_pushed(local: Option<&str>, remote: Option<&str>) -> (r: bool)
    ensures
        r == (local is Some && remote is Some && text::trim(local.unwrap()@) == text::trim(
            remote.unwrap()@,
        )),
{
    match (local, remote) {
        (Some(a), Some(b)) => {
            let x = text::trimmed(a);
            let y = text::trimmed(b);
            text::same(x.as_str(), y.as_str())
        },
        _ => false,
    }
}

// ── Worktrees ──

pub struct Worktree {
    pub path: String,
    pub head: String,
    pub branch: Option<String>,
}

/// What a `Worktree` says.
#[verifier::ext_equal]
pub struct WorktreeModel {
    pub path: Seq<char>,
    pub head: Seq<char>,
    pub branch: Option<Seq<char>>,
}

pub open spec fn worktree_models(v: Seq<Worktree>) -> Seq<WorktreeModel> {
    v.map_values(
        |w: Worktree|
            WorktreeModel { path: w.path@, head: w.head@, branch: text::opt(w.branch) },
    )
}

/// The worktrees read so far, and what was read of the next one.
pub struct Reading {
    pub done: Seq<WorktreeModel>,
    pub path: Option<Seq<char>>,
    pub head: Option<Seq<char>>,
    pub branch: Option<Seq<char>>,
}

impl Reading {
    /// With the worktree that was read, where its path and head are known.
    pub open spec fn closed(self) -> Reading {
        if self.path is Some && self.head is Some {
            Reading {
                done: self.done.push(
                    WorktreeModel {
                        path: self.path.unwrap(),
                        head: self.head.unwrap(),
                        branch: self.branch,
                    },
                ),
                path: None,
                head: None,
                branch: None,
            }
        } else {
            Reading { done: self.done, path: None, head: None, branch: self.branch }
        }
    }

    /// After one more line.
    pub open spec fn after(self, line: Seq<char>) -> Reading {
        if let Some(p) = text::after_prefix(line, "worktree "@) {
            Reading { path: Some(p), ..self.closed() }
        } else if let Some(h) = text::after_prefix(line, "HEAD "@) {
            Reading { head: Some(h), ..self }
        } else if let Some(b) = text::after_prefix(line, "branch "@) {
            Reading { branch: Some(b), ..self }
        } else if line == "detached"@ {
            Reading { branch: None, ..self }
        } else {
            self
        }
    }
}

/// What lines say of worktrees.
pub open spec fn reading(lines: Seq<Seq<char>>) -> Reading
    decreases lines.len(),
{
    if lines.len() == 0 {
        Reading { done: Seq::empty(), path: None, head: None, branch: None }
    } else {
        reading(lines.drop_last()).after(lines.last())
    }
}

/// Read the worktrees of a repo from what `git worktree list --porcelain` prints.
pub fn list_worktrees(stdout: &str) -> (r: Vec<Worktree>)
    ensures
        worktree_models(r@) == reading(text::lines(stdout@)).closed().done,
{
    let ls = text::lines_of(stdout);
    let ghost all = text::lines(stdout@);
    assert(all.len() == ls.len());
    let mut done: Vec<Worktree> = Vec::new();
    let mut path: Option<String> = None;
    let mut head: Option<String> = None;
    let mut branch: Option<String> = None;
    let mut i: usize = 0;
    assert(all.take(0) =~= Seq::<Seq<char>>::empty());
    assert(worktree_models(done@) =~= Seq::<WorktreeModel>::empty());
    while i < ls.len()
        invariant
            i <= ls.len(),
            all == text::texts(ls@),
            worktree_models(done@) == reading(all.take(i as int)).done,
            text::opt(path) == reading(all.take(i as int)).path,
            text::opt(head) == reading(all.take(i as int)).head,
            text::opt(branch) == reading(all.take(i as int)).branch,
        decreases ls.len() - i,
    {
        assert(all.take(i + 1).drop_last() =~= all.take(i as int));
        assert(all.take(i + 1).last() == ls@[i as int]@);
        let line = ls[i].as_str();
        if let Some(p) = text::strip_lead(line, "worktree ") {
            if let (Some(done_path), Some(done_head)) = (path, head) {
                let ghost sofar = worktree_models(done@);
                let ghost m = WorktreeModel {
                    path: done_path@,
                    head: done_head@,
                    branch: text::opt(branch),
                };
                done.push(Worktree { path: done_path, head: done_head, branch });
                branch = None;
                assert(worktree_models(done@) =~= sofar.push(m));
            }
            path = Some(p);
            head = None;
        } else if let Some(h) = text::strip_lead(line, "HEAD ") {
            head = Some(h);
        } else if let Some(b) = text::strip_lead(line, "branch ") {
            branch = Some(b);
        } else if text::same(line, "detached") {
            branch = None;
        }
        i += 1;
    }
    assert(all.take(i as int) =~= all);
    if let (Some(done_path), Some(done_head)) = (path, head) {
        let ghost sofar = worktree_models(done@);
        let ghost m = WorktreeModel {
            path: done_path@,
            head: done_head@,
            branch: text::opt(branch),
        };
        done.push(Worktree { path: done_path, head: done_head, branch });
        assert(worktree_models(done@) =~= sofar.push(m));
    }
    done
}

/// What is known of a worktree.
pub struct WorktreeFacts {
    /// Whether it is the repo's own.
    pub is_main: bool,
    /// Whether its directory is there.
    pub exists_there: bool,
    /// How many files are dirty.
    pub dirty: usize,
    /// Whether its head is merged into the default branch.
    pub merged: bool,
    /// Whether its branch is pushed.
    pub pushed: bool,
}

/// What is remarkable about a worktree.
pub open spec fn worktree_flags(f: WorktreeFacts, has_branch: bool) -> Seq<Seq<char>> {
    let one = if f.is_main {
        seq!["main"@]
    } else {
        Seq::empty()
    };
    let two = if !f.exists_there {
        one.push("MISSING"@)
    } else if f.dirty > 0 {
        one.push("DIRTY"@)
    } else {
        one
    };
    let three = if f.is_main {
        two
    } else if f.merged {
        two.push("merged"@)
    } else {
        two.push("unmerged"@)
    };
    if has_branch && !f.pushed {
        three.push("not pushed"@)
    } else {
        three
    }
}

/// The name of a branch without its place among the refs.
pub open spec fn branch_name(branch: Seq<char>) -> Seq<char> {
    match text::after_prefix(branch, "refs/heads/"@) {
        Some(b) => b,
        None => branch,
    }
}

/// What a worktree is shown by: its branch, else the start of its head.
pub open spec fn worktree_title(branch: Option<Seq<char>>, head: Seq<char>) -> Seq<char> {
    match branch {
        Some(b) => branch_name(b),
        None => "(detached "@ + head.take(8) + ")"@,
    }
}

/// The line for a worktree.
pub open spec fn worktree_line(w: WorktreeModel, f: WorktreeFacts) -> Seq<char> {
    let flags = worktree_flags(f, w.branch is Some);
    worktree_title(w.branch, w.head) + if flags.len() == 0 {
        Seq::empty()
    } else {
        " ["@ + text::join(flags, ", "@) + "]"@
    }
}

impl Worktree {
    /// The name of the branch, where there is one.
    pub fn branch_name(&self) -> (r: Option<String>)
        ensures
            text::opt(r) == (match self.branch {
                Some(b) => Some(branch_name(b@)),
                None => None,
            }),
    {
        match &self.branch {
            Some(b) => match text::strip_lead(b.as_str(), "refs/heads/") {
                Some(name) => Some(name),
                None => Some(b.clone()),
            },
            None => None,
        }
    }

    /// Whether the head can be shown: it is long enough to be cut to the start of a commit's
    /// name, or the branch is shown instead.
    pub open spec fn is_showable(self) -> bool {
        self.branch is Some || self.head@.len() >= 8
    }

    /// Whether the worktree can be shown.
    pub fn showable(&self) -> (r: bool)
        ensures
            r == self.is_showable(),
    {
        let cs = text::chars_of(self.head.as_str());
        self.branch.is_some() || cs.len() >= 8
    }

    /// The line for the worktree.
    pub fn line(&self, facts: &WorktreeFacts) -> (r: String)
        requires
            self.is_showable(),
        ensures
            r@ == worktree_line(
                (WorktreeModel {
                    path: self.path@,
                    head: self.head@,
                    branch: text::opt(self.branch),
                }),
                *facts,
            ),
    {
        let mut flags: Vec<String> = Vec::new();
        assert(text::texts(flags@) =~= Seq::<Seq<char>>::empty());
        if facts.is_main {
            flags.push("main".to_string());
            assert(text::texts(flags@) =~= seq!["main"@]);
        }
        if !facts.exists_there {
            flags.push("MISSING".to_string());
        } else if facts.dirty > 0 {
            flags.push("DIRTY".to_string());
        }
        if !facts.is_main {
            if facts.merged {
                flags.push("merged".to_string());
            } else {
                flags.push("unmerged".to_string());
            }
        }
        if self.branch.is_some() && !facts.pushed {
            flags.push("not pushed".to_string());
        }
        let mut out = match self.branch_name() {
            Some(name) => name,
            None => {
                let cs = text::chars_of(self.head.as_str());
                let short = text::slice_text(&cs, 0, 8);
                assert(short@ =~= self.head@.take(8));
                text::cat3("(detached ", short.as_str(), ")")
            },
        };
        assert(text::texts(flags@).len() == flags.len());
        if flags.len() > 0 {
            let joined = text::join_with(&flags, ", ");
            let shown = text::cat3(" [", joined.as_str(), "]");
            out.append(shown.as_str());
        } else {
            assert(out@ + Seq::<char>::empty() =~= out@);
        }
        out
    }
}

/// How many worktrees a summary counts as dirty and as unmerged.
pub struct WorktreeTotals {
    pub dirty: u64,
    pub unmerged: u64,
}

/// How many worktrees of a list are dirty.
pub open spec fn dirty_count(facts: Seq<WorktreeFacts>) -> nat
    decreases facts.len(),
{
    if facts.len() == 0 {
        0
    } else {
        dirty_count(facts.drop_last()) + if facts.last().exists_there && facts.last().dirty > 0 {
            1nat
        } else {
            0nat
        }
    }
}

/// How many worktrees of a list are not merged.
pub open spec fn unmerged_count(facts: Seq<WorktreeFacts>) -> nat
    decreases facts.len(),
{
    if facts.len() == 0 {
        0
    } else {
        unmerged_count(facts.drop_last()) + if !facts.last().is_main && !facts.last().merged {
            1nat
        } else {
            0nat
        }
    }
}

/// Count the worktrees that are dirty and those that are not merged.
pub fn total_worktrees(facts: &Vec<WorktreeFacts>) -> (r: WorktreeTotals)
    ensures
        r.dirty == dirty_count(facts@),
        r.unmerged == unmerged_count(facts@),
{
    let mut dirty: u64 = 0;
    let mut unmerged: u64 = 0;
    let mut i: usize = 0;
    assert(facts@.take(0) =~= Seq::<WorktreeFacts>::empty());
    while i < facts.len()
        invariant
            i <= facts.len(),
            dirty <= i,
            unmerged <= i,
            dirty == dirty_count(facts@.take(i as int)),
            unmerged == unmerged_count(facts@.take(i as int)),
        decreases facts.len() - i,
    {
        assert(facts@.take(i + 1).drop_last() =~= facts@.take(i as int));
        let f = &facts[i];
        if f.exists_there && f.dirty > 0 {
            dirty += 1;
        }
        if !f.is_main && !f.merged {
            unmerged += 1;
        }
        i += 1;
    }
    assert(facts@.take(i as int) =~= facts@);
    WorktreeTotals { dirty, unmerged }
}

/// Every line that is not empty counts.
pub proof fn law_listed_files(lines: Seq<Seq<char>>)
    ensures
        nonempty_lines(lines) == lines.filter(
            |l: Seq<char>| l.len() > 0,
        ).len(),
    decreases lines.len(),
{
    reveal(Seq::filter);
    if lines.len() > 0 {
        law_listed_files(lines.drop_last());
    }
}

/// A worktree is dirty where it is there and has changes.
pub proof fn law_dirty_worktrees(facts: Seq<WorktreeFacts>)
    ensures
        dirty_count(facts) == facts.filter(
            |f: WorktreeFacts| f.exists_there && f.dirty > 0,
        ).len(),
    decreases facts.len(),
{
    reveal(Seq::filter);
    if facts.len() > 0 {
        law_dirty_worktrees(facts.drop_last());
    }
}

/// Every worktree but the main one counts that is not merged.
pub proof fn law_unmerged_worktrees(facts: Seq<WorktreeFacts>)
    ensures
        unmerged_count(facts) == facts.filter(
            |f: WorktreeFacts| !f.is_main && !f.merged,
        ).len(),
    decreases facts.len(),
{
    reveal(Seq::filter);
    if facts.len() > 0 {
        law_unmerged_worktrees(facts.drop_last());
    }
}

/// A repo is clean exactly where it is on a main branch, has no changes and nothing unpushed, and
/// has a remote; each of these that fails is told.
pub proof fn law_clean_repos(f: RepoFacts)
    ensures
        repo_parts(f).len() == (if f.branch matches Some(b) && (b@ == "main"@ || b@ == "master"@) {
            0int
        } else {
            1
        }) + (if f.dirty > 0 {
            1int
        } else {
            0
        }) + (if f.unpushed > 0 {
            1int
        } else {
            0
        }) + (if f.has_remote {
            0int
        } else {
            1
        }),
        f.dirty > 0 ==> repo_parts(f).contains(text::decimal(f.dirty as nat) + " dirty"@),
        f.unpushed > 0 ==> repo_parts(f).contains(
            text::decimal(f.unpushed as nat) + " unpushed"@,
        ),
        !f.has_remote ==> repo_parts(f).contains("no remote"@),
        repo_parts(f).len() == 0 ==> repo_state(f) == "clean"@,
{
    reveal_strlit("main");
    reveal_strlit("master");
    reveal_strlit("???");
    assert("???"@.len() == 3 && "main"@.len() == 4 && "master"@.len() == 6);
    let branch = shown_branch(text::opt(f.branch));
    let one = if is_main(branch) {
        Seq::empty()
    } else {
        seq!["branch="@ + branch]
    };
    let dirty = text::decimal(f.dirty as nat) + " dirty"@;
    let two = if f.dirty > 0 {
        one.push(dirty)
    } else {
        one
    };
    let unpushed = text::decimal(f.unpushed as nat) + " unpushed"@;
    let parts = repo_parts(f);
    if f.dirty > 0 {
        assert(parts[one.len() as int] == dirty);
    }
    if f.unpushed > 0 {
        assert(parts[two.len() as int] == unpushed);
    }
    if !f.has_remote {
        assert(parts[parts.len() - 1] == "no remote"@);
    }
}

/// A worktree that is missing is told so whatever else is known of it; the main one is never told
/// to be merged or unmerged, and a branch that is not pushed is told.
pub proof fn law_worktree_flags(f: WorktreeFacts, has_branch: bool)
    ensures
        ({
            let flags = worktree_flags(f, has_branch);
            &&& flags.len() == (if f.is_main {
                1int
            } else {
                0
            }) + (if !f.exists_there || f.dirty > 0 {
                1int
            } else {
                0
            }) + (if f.is_main {
                0int
            } else {
                1
            }) + (if has_branch && !f.pushed {
                1int
            } else {
                0
            })
            &&& f.is_main ==> flags[0] == "main"@
            &&& !f.exists_there ==> flags.contains("MISSING"@)
            &&& f.exists_there && f.dirty > 0 ==> flags.contains("DIRTY"@)
            &&& !f.is_main && f.merged ==> flags.contains("merged"@)
            &&& !f.is_main && !f.merged ==> flags.contains("unmerged"@)
            &&& has_branch && !f.pushed ==> flags.last() == "not pushed"@
        }),
{
    let flags = worktree_flags(f, has_branch);
    let lead = if f.is_main {
        1int
    } else {
        0int
    };
    let mid = if !f.exists_there || f.dirty > 0 {
        1int
    } else {
        0int
    };
    if mid == 1 {
        assert(flags[lead] == if !f.exists_there {
            "MISSING"@
        } else {
            "DIRTY"@
        });
    }
    if !f.is_main {
        assert(flags[mid] == if f.merged {
            "merged"@
        } else {
            "unmerged"@
        });
    }
}

/// The lines of one worktree are read as one: its path, its head and its branch, whatever came
/// before, once the next one begins or the text ends.
pub proof fn law_worktree_is_read(
    before: Seq<Seq<char>>,
    path: Seq<char>,
    head: Seq<char>,
    branch: Seq<char>,
)
    ensures
        ({
            let lines = before.push("worktree "@ + path).push("HEAD "@ + head).push(
                "branch "@ + branch,
            );
            &&& reading(lines).path == Some(path)
            &&& reading(lines).head == Some(head)
            &&& reading(lines).branch == Some(branch)
            &&& reading(lines).closed().done == reading(before).closed().done.push(
                WorktreeModel { path, head, branch: Some(branch) },
            )
        }),
{
    let w = "worktree "@ + path;
    let h = "HEAD "@ + head;
    let b = "branch "@ + branch;
    let one = before.push(w);
    let two = one.push(h);
    let three = two.push(b);
    assert(three.drop_last() =~= two && two.drop_last() =~= one && one.drop_last() =~= before);
    reveal_strlit("worktree ");
    reveal_strlit("HEAD ");
    reveal_strlit("branch ");
    assert("worktree "@[0] == 'w' && "HEAD "@[0] == 'H' && "branch "@[0] == 'b');
    assert(h[0] == 'H' && b[0] == 'b');
    assert(w.skip("worktree "@.len() as int) =~= path);
    assert(h.skip("HEAD "@.len() as int) =~= head);
    assert(b.skip("branch "@.len() as int) =~= branch);
    assert(w.subrange("worktree "@.len() as int, w.len() as int) =~= path);
    assert(h.subrange("HEAD "@.len() as int, h.len() as int) =~= head);
    assert(b.subrange("branch "@.len() as int, b.len() as int) =~= branch);
    assert("worktree "@.is_prefix_of(w));
    assert("HEAD "@.is_prefix_of(h));
    assert("branch "@.is_prefix_of(b));
    assert(!"worktree "@.is_prefix_of(h));
    assert(!"worktree "@.is_prefix_of(b));
    assert(!"HEAD "@.is_prefix_of(b));
    assert(reading(one) == reading(before).after(w));
    assert(reading(two) == reading(one).after(h));
    assert(reading(three) == reading(two).after(b));
}

/// A detached worktree is read without a branch, and is shown by the start of its head.
pub proof fn law_detached_worktrees(lines: Seq<Seq<char>>, head: Seq<char>, branch: Seq<char>)
    ensures
        reading(lines.push("detached"@)).branch is None,
        reading(lines.push("detached"@)).path == reading(lines).path,
        reading(lines.push("detached"@)).head == reading(lines).head,
        worktree_title(None, head) == "(detached "@ + head.take(8) + ")"@,
        worktree_title(Some("refs/heads/"@ + branch), head) == branch,
        !"refs/heads/"@.is_prefix_of(branch) ==> worktree_title(Some(branch), head) == branch,
{
    assert(lines.push("detached"@).drop_last() =~= lines);
    reveal_strlit("detached");
    reveal_strlit("worktree ");
    reveal_strlit("HEAD ");
    reveal_strlit("branch ");
    assert("detached"@[0] == 'd' && "worktree "@[0] == 'w' && "HEAD "@[0] == 'H' && "branch "@[0]
        == 'b');
    assert(!"worktree "@.is_prefix_of("detached"@));
    assert(!"HEAD "@.is_prefix_of("detached"@));
    assert(!"branch "@.is_prefix_of("detached"@));
    let lead = "refs/heads/"@;
    assert((lead + branch).skip(lead.len() as int) =~= branch);
    assert(lead.is_prefix_of(lead + branch));
}

/// The remote's head is the branch behind its place among the refs.
pub proof fn law_remote_heads(symbolic: Option<&str>)
    ensures
        symbolic is None ==> remote_head(symbolic) is None,
        symbolic matches Some(s) ==> (remote_head(symbolic) matches Some(b) ==> text::trim(s@)
            == "refs/remotes/origin/"@ + b),
        symbolic matches Some(s) ==> (remote_head(symbolic) is None
            <==> !"refs/remotes/origin/"@.is_prefix_of(text::trim(s@))),
{
    if let Some(s) = symbolic {
        if let Some(b) = remote_head(symbolic) {
            let lead = "refs/remotes/origin/"@;
            assert(text::trim(s@) =~= lead + b) by {
                assert(text::trim(s@).subrange(0, lead.len() as int) =~= lead);
            }
        }
    }
}

} // verus!
