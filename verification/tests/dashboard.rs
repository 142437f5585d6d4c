use superwork::dashboard::{self, RepoRow};

fn row(dir: &str, branch: &str, ci: &str, dirty: usize, unpushed: usize) -> RepoRow {
    RepoRow {
        repo_dir: dir.to_string(),
        branch: branch.to_string(),
        ci: ci.to_string(),
        dirty,
        unpushed,
        worktrees: 0,
        crates: Vec::new(),
    }
}

#[test]
fn problems_are_scored_by_weight() {
    assert_eq!(dashboard::problem_score(&row("a", "main", "success", 0, 0)), 0);
    assert_eq!(dashboard::problem_score(&row("a", "master", "-", 0, 0)), 0);
    assert_eq!(dashboard::problem_score(&row("a", "dev", "no_runs", 0, 0)), 1);
    assert_eq!(dashboard::problem_score(&row("a", "main", "failure", 3, 2)), 14);
    // A failure outweighs everything else
    assert!(
        dashboard::problem_score(&row("a", "main", "?", 0, 0))
            > dashboard::problem_score(&row("a", "dev", "success", 9, 9))
    );
}

#[test]
fn rows_are_ordered_by_score_then_name() {
    let rows = vec![
        row("c", "main", "success", 0, 0),
        row("b", "main", "success", 1, 0),
        row("a", "main", "success", 0, 0),
        row("d", "main", "success", 2, 0),
    ];
    assert_eq!(dashboard::order_rows(&rows), vec![1, 3, 2, 0]);
}

#[test]
fn cells_show_what_is_off() {
    let mut r = row("a", "dev", "success", 0, 4);
    r.worktrees = 2;
    let cells = dashboard::row_cells(&r);
    assert_eq!(cells.branch, "dev*");
    assert_eq!(cells.ci, "ok");
    assert_eq!(cells.dirty, "-");
    assert_eq!(cells.unpushed, "4");
    assert_eq!(cells.worktrees, " +2wt");
    let plain = dashboard::row_cells(&row("a", "main", "no_runs", 1, 0));
    assert_eq!((plain.branch.as_str(), plain.ci.as_str()), ("main", "?"));
    assert_eq!(plain.worktrees, "");
    assert_eq!(dashboard::row_cells(&row("a", "main", "failure", 0, 0)).ci, "failure");
}

#[test]
fn rows_are_summed() {
    let rows = vec![
        row("a", "main", "success", 1, 0),
        row("b", "dev", "failure", 2, 3),
        row("c", "main", "-", 0, 0),
    ];
    let t = dashboard::sum_rows(&rows);
    assert_eq!((t.ci_ok, t.ci_fail, t.dirty, t.unpushed, t.not_main), (1, 1, 2, 1, 1));
}

#[test]
fn git_answers_are_counted() {
    assert_eq!(dashboard::count_filled_lines(" M a\n\n  \n?? b\n"), 2);
    assert_eq!(dashboard::count_worktrees(Some("/w [main]\n/x [dev]\n")), 1);
    assert_eq!(dashboard::count_worktrees(Some("")), 0);
    assert_eq!(dashboard::count_worktrees(None), 0);
    assert_eq!(dashboard::count_in_answer(" 12\n"), 12);
    assert_eq!(dashboard::count_in_answer("many"), 0);
    assert_eq!(dashboard::remote_branch("dev"), "origin/dev");
}
