use superwork::status::{self, RepoFacts, Worktree, WorktreeFacts};

fn s(t: &str) -> String {
    t.to_string()
}

#[test]
fn repos_show_their_state() {
    let clean = RepoFacts { branch: Some(s("main")), dirty: 0, unpushed: 0, has_remote: true };
    assert_eq!(clean.state(), "clean");
    assert!(clean.on_main());
    let busy = RepoFacts { branch: Some(s("dev")), dirty: 3, unpushed: 1, has_remote: false };
    assert_eq!(busy.state(), "branch=dev, 3 dirty, 1 unpushed, no remote");
    assert_eq!(busy.branch_name(), "dev");
    let lost = RepoFacts { branch: None, dirty: 0, unpushed: 0, has_remote: true };
    assert_eq!(lost.state(), "branch=???");
    assert!(!lost.on_main());
}

#[test]
fn git_is_read() {
    assert_eq!(status::count_listed_files(" M a\n\n \n"), 2);
    assert_eq!(
        status::git_default_branch(Some("refs/remotes/origin/trunk\n"), true, true),
        "trunk"
    );
    assert_eq!(status::git_default_branch(Some("odd"), false, true), "master");
    assert_eq!(status::git_default_branch(None, true, true), "main");
    assert_eq!(status::git_default_branch(None, false, false), "main");
    assert!(status::is_branch_pushed(Some("abc\n"), Some("abc")));
    assert!(!status::is_branch_pushed(Some("abc"), Some("abd")));
    assert!(!status::is_branch_pushed(None, Some("abc")));
}

#[test]
fn worktrees_are_listed() {
    let found = status::list_worktrees(
        "worktree /w/a\nHEAD 0123456789\nbranch refs/heads/main\n\n\
         worktree /w/b\nHEAD abcdef0123\ndetached\n\nworktree /w/c\nbare\n",
    );
    assert_eq!(found.len(), 2);
    assert_eq!((found[0].path.as_str(), found[0].head.as_str()), ("/w/a", "0123456789"));
    assert_eq!(found[0].branch_name(), Some(s("main")));
    assert_eq!(found[1].branch, None);
    assert!(status::list_worktrees("").is_empty());
}

#[test]
fn worktrees_are_shown_with_their_flags() {
    let on_branch = Worktree { path: s("/w"), head: s("01"), branch: Some(s("refs/heads/dev")) };
    let facts = |is_main: bool, exists_there: bool, dirty: usize, merged: bool, pushed: bool| {
        WorktreeFacts { is_main, exists_there, dirty, merged, pushed }
    };
    assert!(on_branch.showable());
    assert_eq!(on_branch.line(&facts(true, true, 0, false, true)), "dev [main]");
    assert_eq!(
        on_branch.line(&facts(false, true, 2, false, false)),
        "dev [DIRTY, unmerged, not pushed]"
    );
    assert_eq!(on_branch.line(&facts(false, false, 0, true, true)), "dev [MISSING, merged]");
    let detached = Worktree { path: s("/w"), head: s("0123456789ab"), branch: None };
    assert_eq!(
        detached.line(&facts(false, true, 0, true, false)),
        "(detached 01234567) [merged]"
    );
    let short = Worktree { path: s("/w"), head: s("0123"), branch: None };
    assert!(!short.showable());
    let totals = status::total_worktrees(&vec![
        facts(true, true, 1, false, true),
        facts(false, true, 1, false, true),
        facts(false, false, 0, true, true),
    ]);
    assert_eq!((totals.dirty, totals.unmerged), (2, 1));
}
