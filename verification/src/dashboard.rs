//! The state of all repos at a glance: branch, CI, changes.

use vstd::prelude::*;
use vstd::string::*;

use crate::text;

verus! {

/// What is known of a repo.
pub struct RepoRow {
    pub repo_dir: String,
    pub branch: String,
    /// The conclusion of the latest CI run, "no_runs", "?" or, without GitHub, "-".
    pub ci: String,
    pub dirty: usize,
    pub unpushed: usize,
    /// Worktrees besides the main one.
    pub worktrees: usize,
    pub crates: Vec<String>,
}

impl RepoRow {
    pub open spec fn ci_trouble(self) -> bool {
        self.ci@ != "success"@ && self.ci@ != "-"@ && self.ci@ != "no_runs"@
    }

    pub open spec fn off_main(self) -> bool {
        self.branch@ != "main"@ && self.branch@ != "master"@
    }

    /// How much a repo asks for attention.
    pub open spec fn score(self) -> int {
        (if self.ci_trouble() {
            8int
        } else {
            0
        }) + (if self.dirty > 0 {
            4int
        } else {
            0
        }) + (if self.unpushed > 0 {
            2int
        } else {
            0
        }) + (if self.off_main() {
            1int
        } else {
            0
        })
    }
}

/// How much a repo asks for attention.
pub fn problem_score(row: &RepoRow) -> (r: u32)
    ensures
        r == row.score(),
        r <= 15,
{
    let mut s: u32 = 0;
    if !text::same(row.ci.as_str(), "success") && !text::same(row.ci.as_str(), "-") && !text::same(
        row.ci.as_str(),
        "no_runs",
    ) {
        s += 8;
    }
    if row.dirty > 0 {
        s += 4;
    }
    if row.unpushed > 0 {
        s += 2;
    }
    if !text::same(row.branch.as_str(), "main") && !text::same(row.branch.as_str(), "master") {
        s += 1;
    }
    s
}

/// CI trouble outweighs everything else, then changes, then unpushed work, then the branch.
pub proof fn law_score_is_lexicographic(a: RepoRow, b: RepoRow)
    ensures
        a.ci_trouble() && !b.ci_trouble() ==> a.score() > b.score(),
        a.ci_trouble() == b.ci_trouble() && a.dirty > 0 && b.dirty == 0 ==> a.score() > b.score(),
        a.ci_trouble() == b.ci_trouble() && (a.dirty > 0) == (b.dirty > 0) && a.unpushed > 0
            && b.unpushed == 0 ==> a.score() > b.score(),
        a.ci_trouble() == b.ci_trouble() && (a.dirty > 0) == (b.dirty > 0) && (a.unpushed > 0) == (
        b.unpushed > 0) && a.off_main() && !b.off_main() ==> a.score() > b.score(),
        a.score() == b.score() <==> a.ci_trouble() == b.ci_trouble() && (a.dirty > 0) == (b.dirty
            > 0) && (a.unpushed > 0) == (b.unpushed > 0) && a.off_main() == b.off_main(),
        a.score() == 0 <==> !a.ci_trouble() && a.dirty == 0 && a.unpushed == 0 && !a.off_main(),
{
}

/// Whether one row is shown before another whatever their places: the higher score first,
/// then by directory.
pub open spec fn row_precedes(a: RepoRow, b: RepoRow) -> bool {
    a.score() > b.score() || (a.score() == b.score() && text::precedes(a.repo_dir@, b.repo_dir@))
}

/// Whether two rows have the same claim to a place.
pub open spec fn row_ties(a: RepoRow, b: RepoRow) -> bool {
    a.score() == b.score() && a.repo_dir@ == b.repo_dir@
}

/// Whether place `x` is shown before place `y`.
pub open spec fn shown_before(rows: Seq<RepoRow>, x: int, y: int) -> bool {
    row_precedes(rows[x], rows[y]) || (row_ties(rows[x], rows[y]) && x < y)
}

/// Whether `r` lists the places of the rows in the order in which they are shown.
pub open spec fn is_row_order(rows: Seq<RepoRow>, r: Seq<usize>) -> bool {
    &&& r.len() == rows.len()
    &&& forall|i: int| 0 <= i < r.len() ==> (#[trigger] r[i]) < rows.len()
    &&& forall|i: int, j: int|
        0 <= i < j < r.len() ==> shown_before(rows, #[trigger] r[i] as int, #[trigger] r[j] as int)
}

fn precedes(a: &RepoRow, b: &RepoRow) -> (r: bool)
    ensures
        r == row_precedes(*a, *b),
{
    let x = problem_score(a);
    let y = problem_score(b);
    x > y || (x == y && text::before(a.repo_dir.as_str(), b.repo_dir.as_str()))
}

proof fn lemma_shown_before_chain(rows: Seq<RepoRow>, x: int, y: int, z: int)
    requires
        shown_before(rows, x, y),
        !row_precedes(rows[z], rows[y]),
        x < z,
        y < z,
    ensures
        shown_before(rows, x, z),
{
    text::lemma_precedes_total(rows[y].repo_dir@, rows[z].repo_dir@);
    if text::precedes(rows[x].repo_dir@, rows[y].repo_dir@) && text::precedes(
        rows[y].repo_dir@,
        rows[z].repo_dir@,
    ) {
        text::lemma_precedes_transitive(
            rows[x].repo_dir@,
            rows[y].repo_dir@,
            rows[z].repo_dir@,
        );
    }
}

/// Sort: problems first, then alphabetical.
pub fn order_rows(rows: &Vec<RepoRow>) -> (r: Vec<usize>)
    ensures
        is_row_order(rows@, r@),
{
    let mut out: Vec<usize> = Vec::new();
    let mut i: usize = 0;
    while i < rows.len()
        invariant
            i <= rows.len(),
            out.len() == i,
            forall|a: int| 0 <= a < i ==> (#[trigger] out@[a]) < i,
            forall|a: int, b: int|
                0 <= a < b < i ==> shown_before(
                    rows@,
                    #[trigger] out@[a] as int,
                    #[trigger] out@[b] as int,
                ),
        decreases rows.len() - i,
    {
        let mut k: usize = i;
        while k > 0 && precedes(&rows[i], &rows[out[k - 1]])
            invariant
                k <= i,
                forall|a: int|
                    k <= a < i ==> row_precedes(rows@[i as int], rows@[(#[trigger] out@[a]) as int]),
            decreases k,
        {
            k -= 1;
        }
        let ghost was = out@;
        out.insert(k, i);
        proof {
            let now = out@;
            assert forall|a: int, b: int| 0 <= a < b < i + 1 implies shown_before(
                rows@,
                #[trigger] now[a] as int,
                #[trigger] now[b] as int,
            ) by {
                let a0 = if a < k { a } else { a - 1 };
                let b0 = if b < k { b } else { b - 1 };
                assert(a != k ==> now[a] == was[a0]);
                assert(b != k ==> now[b] == was[b0]);
                if b == k {
                    let y = was[k - 1] as int;
                    text::lemma_precedes_total(rows@[y].repo_dir@, rows@[i as int].repo_dir@);
                    if a0 < k - 1 {
                        assert(shown_before(rows@, was[a0] as int, y));
                        lemma_shown_before_chain(rows@, was[a0] as int, y, i as int);
                    }
                }
            }
            assert forall|a: int| 0 <= a < i + 1 implies (#[trigger] now[a]) < i + 1 by {
                let a0 = if a < k { a } else { a - 1 };
                assert(a != k ==> now[a] == was[a0]);
            }
        }
        i += 1;
    }
    out
}

/// What a row shows.
pub struct RowCells {
    pub branch: String,
    pub ci: String,
    pub dirty: String,
    pub unpushed: String,
    pub worktrees: String,
}

/// A count as it is shown: a dash for none.
pub open spec fn count_cell(n: nat) -> Seq<char> {
    if n > 0 {
        text::decimal(n)
    } else {
        "-"@
    }
}

/// CI as it is shown.
pub open spec fn ci_cell(ci: Seq<char>) -> Seq<char> {
    if ci == "success"@ {
        "ok"@
    } else if ci == "-"@ {
        "-"@
    } else if ci == "no_runs"@ {
        "?"@
    } else {
        ci
    }
}

/// Whether the cells are what a row shows.
pub open spec fn shows(c: RowCells, row: RepoRow) -> bool {
    &&& c.branch@ == (if row.off_main() {
        row.branch@ + "*"@
    } else {
        row.branch@
    })
    &&& c.ci@ == ci_cell(row.ci@)
    &&& c.dirty@ == count_cell(row.dirty as nat)
    &&& c.unpushed@ == count_cell(row.unpushed as nat)
    &&& c.worktrees@ == (if row.worktrees > 0 {
        " +"@ + text::decimal(row.worktrees as nat) + "wt"@
    } else {
        Seq::<char>::empty()
    })
}

fn show_count(n: usize) -> (r: String)
    ensures
        r@ == count_cell(n as nat),
{
    if n > 0 {
        text::decimal_of(n as u64)
    } else {
        "-".to_string()
    }
}

/// What a row shows; a branch other than main is marked with a star.
pub fn row_cells(row: &RepoRow) -> (r: RowCells)
    ensures
        shows(r, *row),
{
    let main = text::same(row.branch.as_str(), "main") || text::same(
        row.branch.as_str(),
        "master",
    );
    let branch = if main {
        row.branch.clone()
    } else {
        text::cat2(row.branch.as_str(), "*")
    };
    let ci = if text::same(row.ci.as_str(), "success") {
        "ok".to_string()
    } else if text::same(row.ci.as_str(), "no_runs") {
        "?".to_string()
    } else {
        row.ci.clone()
    };
    let worktrees = if row.worktrees > 0 {
        let n = text::decimal_of(row.worktrees as u64);
        text::cat3(" +", n.as_str(), "wt")
    } else {
        let none = String::new();
        assert(none@ =~= Seq::<char>::empty());
        none
    };
    proof {
        reveal_strlit("no_runs");
        reveal_strlit("-");
        assert("-"@.len() != "no_runs"@.len());
    }
    RowCells { branch, ci, dirty: show_count(row.dirty), unpushed: show_count(row.unpushed), worktrees }
}

/// The sums below the table.
pub struct Totals {
    pub ci_ok: usize,
    pub ci_fail: usize,
    pub dirty: usize,
    pub unpushed: usize,
    pub not_main: usize,
}

/// The sums below the table, in the order of `Totals`.
pub open spec fn totals_of(rows: Seq<RepoRow>) -> (nat, nat, nat, nat, nat)
    decreases rows.len(),
{
    if rows.len() == 0 {
        (0, 0, 0, 0, 0)
    } else {
        let before = totals_of(rows.drop_last());
        let row = rows.last();
        (
            before.0 + if row.ci@ == "success"@ {
                1nat
            } else {
                0nat
            },
            before.1 + if row.ci_trouble() {
                1nat
            } else {
                0nat
            },
            before.2 + if row.dirty > 0 {
                1nat
            } else {
                0nat
            },
            before.3 + if row.unpushed > 0 {
                1nat
            } else {
                0nat
            },
            before.4 + if row.off_main() {
                1nat
            } else {
                0nat
            },
        )
    }
}

/// The sums below the table.
pub fn sum_rows(rows: &Vec<RepoRow>) -> (r: Totals)
    ensures
        (
            r.ci_ok as nat,
            r.ci_fail as nat,
            r.dirty as nat,
            r.unpushed as nat,
            r.not_main as nat,
        ) == totals_of(rows@),
{
    let mut t = Totals { ci_ok: 0, ci_fail: 0, dirty: 0, unpushed: 0, not_main: 0 };
    let mut i: usize = 0;
    assert(rows@.take(0) =~= Seq::<RepoRow>::empty());
    while i < rows.len()
        invariant
            i <= rows.len(),
            t.ci_ok <= i,
            t.ci_fail <= i,
            t.dirty <= i,
            t.unpushed <= i,
            t.not_main <= i,
            (
                t.ci_ok as nat,
                t.ci_fail as nat,
                t.dirty as nat,
                t.unpushed as nat,
                t.not_main as nat,
            ) == totals_of(rows@.take(i as int)),
        decreases rows.len() - i,
    {
        let row = &rows[i];
        assert(rows@.take(i + 1).drop_last() =~= rows@.take(i as int));
        assert(rows@.take(i + 1).last() == *row);
        if text::same(row.ci.as_str(), "success") {
            t.ci_ok = t.ci_ok + 1;
        } else if !text::same(row.ci.as_str(), "-") && !text::same(row.ci.as_str(), "no_runs") {
            t.ci_fail = t.ci_fail + 1;
        }
        if row.dirty > 0 {
            t.dirty = t.dirty + 1;
        }
        if row.unpushed > 0 {
            t.unpushed = t.unpushed + 1;
        }
        if !text::same(row.branch.as_str(), "main") && !text::same(row.branch.as_str(), "master") {
            t.not_main = t.not_main + 1;
        }
        i += 1;
    }
    assert(rows@.take(i as int) =~= rows@);
    t
}

// ── Reading git's answers ──

/// How many lines are not blank.
pub open spec fn filled_lines(lines: Seq<Seq<char>>) -> nat
    decreases lines.len(),
{
    if lines.len() == 0 {
        0
    } else {
        filled_lines(lines.drop_last()) + if text::trim(lines.last()).len() > 0 {
            1nat
        } else {
            0nat
        }
    }
}

/// How many lines of an answer are not blank.
pub fn count_filled_lines(stdout: &str) -> (r: usize)
    ensures
        r == filled_lines(text::lines(stdout@)),
{
    let ls = text::lines_of(stdout);
    let ghost all = text::lines(stdout@);
    let mut n: usize = 0;
    let mut i: usize = 0;
    assert(all.take(0) =~= Seq::<Seq<char>>::empty());
    while i < ls.len()
        invariant
            i <= ls.len(),
            all == text::texts(ls@),
            n <= i,
            n == filled_lines(all.take(i as int)),
        decreases ls.len() - i,
    {
        assert(all.take(i + 1).drop_last() =~= all.take(i as int));
        assert(all.take(i + 1).last() == ls@[i as int]@);
        let t = text::trimmed(ls[i].as_str());
        if !t.as_str().is_empty() {
            n += 1;
        }
        i += 1;
    }
    assert(all.take(i as int) =~= all);
    n
}

/// How many worktrees there are besides the main one.
pub fn count_worktrees(stdout: Option<&str>) -> (r: usize)
    ensures
        r == (match stdout {
            Some(s) => if filled_lines(text::lines(s@)) > 0 {
                (filled_lines(text::lines(s@)) - 1) as nat
            } else {
                0
            },
            None => 0,
        }),
{
    match stdout {
        Some(s) => {
            let n = count_filled_lines(s);
            if n > 0 {
                n - 1
            } else {
                0
            }
        },
        None => 0,
    }
}

/// The count that an answer gives; what is no number counts nothing.
pub fn count_in_answer(stdout: &str) -> (r: usize)
    ensures
        r == (match text::parsed_number(text::trim(stdout@), usize::MAX as nat) {
            Some(n) => n,
            None => 0,
        }),
{
    let t = text::trimmed(stdout);
    match text::parse_size(t.as_str()) {
        Some(n) => n,
        None => 0,
    }
}

/// The branch of the remote that a local branch is held against.
pub fn remote_branch(branch: &str) -> (r: String)
    ensures
        r@ == "origin/"@ + branch@,
{
    text::cat2("origin/", branch)
}

/// The sums count each row once for each thing that holds of it.
pub proof fn law_totals(rows: Seq<RepoRow>)
    ensures
        totals_of(rows).0 == rows.filter(|row: RepoRow| row.ci@ == "success"@).len(),
        totals_of(rows).1 == rows.filter(
            |row: RepoRow| row.ci@ != "success"@ && row.ci@ != "-"@ && row.ci@ != "no_runs"@,
        ).len(),
        totals_of(rows).2 == rows.filter(|row: RepoRow| row.dirty > 0).len(),
        totals_of(rows).3 == rows.filter(|row: RepoRow| row.unpushed > 0).len(),
        totals_of(rows).4 == rows.filter(
            |row: RepoRow| row.branch@ != "main"@ && row.branch@ != "master"@,
        ).len(),
    decreases rows.len(),
{
    reveal(Seq::filter);
    if rows.len() > 0 {
        law_totals(rows.drop_last());
    }
}

/// CI is in trouble where it ran and did not succeed; a repo is off main where its branch is
/// neither of the two usual ones.
pub proof fn law_trouble(row: RepoRow)
    ensures
        row.ci_trouble() <==> !(row.ci@ == "success"@ || row.ci@ == "-"@ || row.ci@ == "no_runs"@),
        row.off_main() <==> !(row.branch@ == "main"@ || row.branch@ == "master"@),
        row.score() >= 8 <==> row.ci_trouble(),
{
}

/// Of two rows the one that is shown first has no lower score, and where the scores are equal no
/// later directory.
pub proof fn law_problems_come_first(rows: Seq<RepoRow>, order: Seq<usize>, i: int, j: int)
    requires
        is_row_order(rows, order),
        0 <= i < j < order.len(),
    ensures
        order.len() == rows.len(),
        order[i] != order[j],
        rows[order[i] as int].score() >= rows[order[j] as int].score(),
        rows[order[i] as int].score() == rows[order[j] as int].score() ==> !text::precedes(
            rows[order[j] as int].repo_dir@,
            rows[order[i] as int].repo_dir@,
        ),
{
    assert(shown_before(rows, order[i] as int, order[j] as int));
    text::lemma_precedes_irreflexive(rows[order[i] as int].repo_dir@);
    if text::precedes(rows[order[i] as int].repo_dir@, rows[order[j] as int].repo_dir@)
        && text::precedes(rows[order[j] as int].repo_dir@, rows[order[i] as int].repo_dir@) {
        text::lemma_precedes_transitive(
            rows[order[i] as int].repo_dir@,
            rows[order[j] as int].repo_dir@,
            rows[order[i] as int].repo_dir@,
        );
    }
}

/// A cell for CI tells success, no answer and no runs apart, and shows any other conclusion as it
/// is; a count is shown where it is not zero.
pub proof fn law_cells(cells: RowCells, row: RepoRow)
    requires
        shows(cells, row),
    ensures
        row.ci@ == "success"@ ==> cells.ci@ == "ok"@,
        row.ci@ == "-"@ ==> cells.ci@ == "-"@,
        row.ci@ == "no_runs"@ ==> cells.ci@ == "?"@,
        row.ci_trouble() ==> cells.ci@ == row.ci@,
        row.dirty == 0 ==> cells.dirty@ == "-"@,
        row.dirty > 0 ==> cells.dirty@ == text::decimal(row.dirty as nat),
        row.unpushed == 0 ==> cells.unpushed@ == "-"@,
        row.unpushed > 0 ==> cells.unpushed@ == text::decimal(row.unpushed as nat),
        row.branch@ == "main"@ || row.branch@ == "master"@ ==> cells.branch@ == row.branch@,
        row.branch@ != "main"@ && row.branch@ != "master"@ ==> cells.branch@ == row.branch@ + "*"@,
        row.worktrees == 0 ==> cells.worktrees@.len() == 0,
        row.worktrees > 0 ==> cells.worktrees@ == " +"@ + text::decimal(row.worktrees as nat)
            + "wt"@,
{
    reveal_strlit("success");
    reveal_strlit("-");
    reveal_strlit("no_runs");
    assert("success"@[0] == 's' && "-"@[0] == '-' && "no_runs"@[0] == 'n');
}

/// Every line with something on it counts.
pub proof fn law_filled_lines(lines: Seq<Seq<char>>)
    ensures
        filled_lines(lines) == lines.filter(
            |l: Seq<char>| text::trim(l).len() > 0,
        ).len(),
    decreases lines.len(),
{
    reveal(Seq::filter);
    if lines.len() > 0 {
        law_filled_lines(lines.drop_last());
    }
}

} // verus!
