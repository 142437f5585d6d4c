//! Generating CI workflow files from a template.

use vstd::prelude::*;
use vstd::string::*;

use crate::discover::{CrateInfo, Ecosystem};
use crate::glob;
use crate::text;

verus! {

pub const DEFAULT_TEMPLATE_NAME: &'static str = "ci-template.yml";

pub const DEFAULT_WORKFLOW_PATH: &'static str = ".github/workflows/ci.yml";

/// The template that is written where there is none.
pub const DEFAULT_TEMPLATE: &'static str =
    "name: CI\n\non:\n  push:\n    branches: [main, master]\n  pull_request:\n    branches: [main, master]\n\nenv:\n  CARGO_TERM_COLOR: always\n  RUST_BACKTRACE: 1\n\njobs:\n  test:\n    name: Test (${{{{ matrix.name }}}})\n    runs-on: ${{{{ matrix.os }}}}\n    strategy:\n      fail-fast: false\n      matrix:\n        include:\n          - {{ name: linux-x64, os: ubuntu-latest }}\n          - {{ name: linux-arm64, os: ubuntu-24.04-arm }}\n          - {{ name: macos-arm64, os: macos-latest }}\n          - {{ name: macos-x64, os: macos-15-intel }}\n          - {{ name: windows-x64, os: windows-latest }}\n          - {{ name: windows-arm64, os: windows-11-arm }}\n          - {{ name: linux-i686, os: ubuntu-latest, target: i686-unknown-linux-gnu, cross: true }}\n    steps:\n      - uses: actions/checkout@v4\n      - uses: dtolnay/rust-toolchain@stable\n      - uses: Swatinem/rust-cache@v2\n      - name: Install cross\n        if: matrix.cross\n        run: cargo install cross --git https://github.com/cross-rs/cross\n      - name: cargo test\n        if: '!matrix.cross'\n        run: cargo test\n      - name: cross test\n        if: matrix.cross\n        run: cross test --target ${{{{ matrix.target }}}}\n\n  clippy:\n    name: Clippy\n    runs-on: ubuntu-latest\n    steps:\n      - uses: actions/checkout@v4\n      - uses: dtolnay/rust-toolchain@stable\n        with:\n          components: clippy\n      - uses: Swatinem/rust-cache@v2\n      - name: cargo clippy\n        run: cargo clippy --all-targets -- -D warnings\n\n  fmt:\n    name: Format\n    runs-on: ubuntu-latest\n    steps:\n      - uses: actions/checkout@v4\n      - uses: dtolnay/rust-toolchain@stable\n        with:\n          components: rustfmt\n      - name: cargo fmt\n        run: cargo fmt -- --check\n";

/// Whether a crate lies in a repo and matches a pattern.
pub open spec fn is_wanted(info: CrateInfo, dir: Seq<char>, pattern: Seq<char>) -> bool {
    info.repo_dir@ == dir && glob::matches_end_star(pattern, info.name@)
}

/// Whether a crate of a repo matches a pattern.
pub open spec fn has_match(eco: Ecosystem, dir: Seq<char>, pattern: Seq<char>) -> bool {
    exists|name: Seq<char>| #[trigger]
        eco.crates.has(name) && is_wanted(eco.crates@[name], dir, pattern)
}

/// Whether a crate of a repo matches a pattern.
pub fn repo_matches(eco: &Ecosystem, dir: &str, pattern: &str) -> (r: bool)
    ensures
        r == has_match(*eco, dir@, pattern@),
{
    let n: usize = eco.crates.len();
    let mut i: usize = 0;
    while i < n
        invariant
            i <= n,
            n == eco.crates.keys().len(),
            forall|j: int|
                0 <= j < i ==> !is_wanted(
                    eco.crates@[#[trigger] eco.crates.keys()[j]],
                    dir@,
                    pattern@,
                ),
        decreases n - i,
    {
        let info = eco.crates.value_at(i);
        if text::same(info.repo_dir.as_str(), dir) && glob::end_glob_match(
            pattern,
            info.name.as_str(),
        ) {
            assert(eco.crates.has(eco.crates.keys()[i as int]));
            return true;
        }
        i += 1;
    }
    assert forall|name: Seq<char>| #[trigger] eco.crates.has(name) implies !is_wanted(
        eco.crates@[name],
        dir@,
        pattern@,
    ) by {
        let j = eco.crates.keys().index_of(name);
        assert(eco.crates.keys()[j] == name);
    }
    false
}

/// Whether a crate lies in a repo and its settings say that no workflow is generated.
pub open spec fn opts_out(info: CrateInfo, dir: Seq<char>) -> bool {
    info.repo_dir@ == dir && info.inline_ci is Some && text::lists(
        info.inline_ci.unwrap().delete_sections@,
        "ci-gen-skip"@,
    )
}

/// Whether a repo has opted out.
pub open spec fn is_opted_out(eco: Ecosystem, dir: Seq<char>) -> bool {
    exists|name: Seq<char>| #[trigger]
        eco.crates.has(name) && opts_out(eco.crates@[name], dir)
}

/// Whether a repo has opted out.
pub fn opted_out(eco: &Ecosystem, dir: &str) -> (r: bool)
    ensures
        r == is_opted_out(*eco, dir@),
{
    let n: usize = eco.crates.len();
    let mut i: usize = 0;
    while i < n
        invariant
            i <= n,
            n == eco.crates.keys().len(),
            forall|j: int|
                0 <= j < i ==> !opts_out(eco.crates@[#[trigger] eco.crates.keys()[j]], dir@),
        decreases n - i,
    {
        let info = eco.crates.value_at(i);
        if text::same(info.repo_dir.as_str(), dir) {
            if let Some(ci) = &info.inline_ci {
                if text::holds(&ci.delete_sections, "ci-gen-skip") {
                    assert(eco.crates.has(eco.crates.keys()[i as int]));
                    return true;
                }
            }
        }
        i += 1;
    }
    assert forall|name: Seq<char>| #[trigger] eco.crates.has(name) implies !opts_out(
        eco.crates@[name],
        dir@,
    ) by {
        let j = eco.crates.keys().index_of(name);
        assert(eco.crates.keys()[j] == name);
    }
    false
}

/// The place of the first crate from `i` on that lies in a repo, a publishable one where that is
/// asked for.
pub open spec fn first_in(
    eco: Ecosystem,
    dir: Seq<char>,
    publishable_only: bool,
    i: int,
) -> Option<int>
    decreases eco.crates.keys().len() - i,
{
    if i >= eco.crates.keys().len() {
        None
    } else {
        let info = eco.crates@[eco.crates.keys()[i]];
        if info.repo_dir@ == dir && (!publishable_only || info.publishable) {
            Some(i)
        } else {
            first_in(eco, dir, publishable_only, i + 1)
        }
    }
}

/// The crate that a workflow is generated for: the first publishable one of the repo, else its
/// first; the directory stands in where there is none.
pub open spec fn primary(eco: Ecosystem, dir: Seq<char>) -> Seq<char> {
    match first_in(eco, dir, true, 0) {
        Some(i) => eco.crates@[eco.crates.keys()[i]].name@,
        None => match first_in(eco, dir, false, 0) {
            Some(i) => eco.crates@[eco.crates.keys()[i]].name@,
            None => dir,
        },
    }
}

fn find_first(eco: &Ecosystem, dir: &str, publishable_only: bool) -> (r: Option<String>)
    ensures
        text::opt(r) == (match first_in(*eco, dir@, publishable_only, 0) {
            Some(i) => Some(eco.crates@[eco.crates.keys()[i]].name@),
            None => None,
        }),
{
    let n: usize = eco.crates.len();
    let mut i: usize = 0;
    while i < n
        invariant
            i <= n,
            n == eco.crates.keys().len(),
            first_in(*eco, dir@, publishable_only, i as int) == first_in(
                *eco,
                dir@,
                publishable_only,
                0,
            ),
        decreases n - i,
    {
        let info = eco.crates.value_at(i);
        if text::same(info.repo_dir.as_str(), dir) && (!publishable_only || info.publishable) {
            return Some(info.name.clone());
        }
        i += 1;
    }
    None
}

/// The crate that a repo's workflow is generated for.
pub fn primary_crate(eco: &Ecosystem, dir: &str) -> (r: String)
    ensures
        r@ == primary(*eco, dir@),
{
    match find_first(eco, dir, true) {
        Some(name) => name,
        None => match find_first(eco, dir, false) {
            Some(name) => name,
            None => dir.to_string(),
        },
    }
}

/// A template with the variables of a repo put in.
pub open spec fn rendered(
    template: Seq<char>,
    crate_name: Seq<char>,
    repo_dir: Seq<char>,
) -> Seq<char> {
    let one = text::replaced(template, "{{crate_name}}"@, crate_name);
    let two = text::replaced(one, "{{repo_dir}}"@, repo_dir);
    text::replaced(two, "{{msrv}}"@, "1.85"@)
}

/// Put the variables of a repo into a template.
pub fn render_template(template: &str, crate_name: &str, repo_dir: &str) -> (r: String)
    ensures
        r@ == rendered(template@, crate_name@, repo_dir@),
{
    proof {
        reveal_strlit("{{crate_name}}");
        reveal_strlit("{{repo_dir}}");
        reveal_strlit("{{msrv}}");
    }
    let one = text::replace_all(template, "{{crate_name}}", crate_name);
    let two = text::replace_all(one.as_str(), "{{repo_dir}}", repo_dir);
    text::replace_all(two.as_str(), "{{msrv}}", "1.85")
}

/// What becomes of a repo's workflow file.
pub enum GenAction {
    /// No crate of the repo matches the filter.
    Ignore,
    /// The repo has opted out.
    OptedOut,
    /// The file holds this text already.
    Unchanged,
    /// The file is to hold this text.
    Write(String),
}

/// The text of a repo's workflow file.
pub open spec fn workflow(template: Seq<char>, eco: Ecosystem, dir: Seq<char>) -> Seq<char> {
    rendered(template, primary(eco, dir), dir)
}

/// Decide what becomes of a repo's workflow file, given what it holds.
pub fn plan_workflow(
    eco: &Ecosystem,
    dir: &str,
    filter: Option<&str>,
    template: &str,
    existing: &str,
) -> (r: GenAction)
    ensures
        ({
            let wanted = filter is Some ==> has_match(*eco, dir@, filter.unwrap()@);
            let text = workflow(template@, *eco, dir@);
            &&& r is Ignore <==> !wanted
            &&& r is OptedOut <==> wanted && is_opted_out(*eco, dir@)
            &&& r is Unchanged <==> wanted && !is_opted_out(*eco, dir@) && existing@ == text
            &&& match r {
                GenAction::Write(t) => t@ == text && existing@ != text,
                _ => true,
            }
        }),
{
    if let Some(pattern) = filter {
        if !repo_matches(eco, dir, pattern) {
            return GenAction::Ignore;
        }
    }
    if opted_out(eco, dir) {
        return GenAction::OptedOut;
    }
    let name = primary_crate(eco, dir);
    let text = render_template(template, name.as_str(), dir);
    if text::same(existing, text.as_str()) {
        GenAction::Unchanged
    } else {
        GenAction::Write(text)
    }
}

/// A repo matches a pattern as soon as one of its crates does, and only then.
pub proof fn law_repo_matches_by_a_crate(eco: Ecosystem, dir: Seq<char>, pattern: Seq<char>)
    ensures
        has_match(eco, dir, pattern) <==> exists|name: Seq<char>| #[trigger]
            eco.crates.has(name) && eco.crates@[name].repo_dir@ == dir && glob::matches_end_star(
                pattern,
                eco.crates@[name].name@,
            ),
{
}

/// One crate whose settings list the skip word takes its whole repo out, and no other repo.
pub proof fn law_one_crate_opts_out(eco: Ecosystem, dir: Seq<char>)
    ensures
        is_opted_out(eco, dir) <==> exists|name: Seq<char>| #[trigger]
            eco.crates.has(name) && eco.crates@[name].repo_dir@ == dir
                && eco.crates@[name].inline_ci is Some && text::texts(
                eco.crates@[name].inline_ci.unwrap().delete_sections@,
            ).contains("ci-gen-skip"@),
{
    assert forall|name: Seq<char>| #[trigger] eco.crates.has(name) && eco.crates@[name].inline_ci
        is Some implies text::lists(
        eco.crates@[name].inline_ci.unwrap().delete_sections@,
        "ci-gen-skip"@,
    ) == text::texts(eco.crates@[name].inline_ci.unwrap().delete_sections@).contains(
        "ci-gen-skip"@,
    ) by {
        text::lemma_lists_texts(
            eco.crates@[name].inline_ci.unwrap().delete_sections@,
            "ci-gen-skip"@,
        );
    }
}

/// The first crate of a repo from a place on, publishable where that is asked for: none before it
/// would do.
pub proof fn law_first_of_a_repo(
    eco: Ecosystem,
    dir: Seq<char>,
    publishable_only: bool,
    i: int,
)
    requires
        0 <= i <= eco.crates.keys().len(),
    ensures
        match first_in(eco, dir, publishable_only, i) {
            Some(k) => i <= k < eco.crates.keys().len()
                && eco.crates@[eco.crates.keys()[k]].repo_dir@
                == dir && (publishable_only ==> eco.crates@[eco.crates.keys()[k]].publishable)
                && forall|j: int|
                i <= j < k && eco.crates@[#[trigger] eco.crates.keys()[j]].repo_dir@ == dir
                    ==> publishable_only && !eco.crates@[eco.crates.keys()[j]].publishable,
            None => forall|j: int|
                i <= j < eco.crates.keys().len()
                    && eco.crates@[#[trigger] eco.crates.keys()[j]].repo_dir@ == dir
                    ==> publishable_only && !eco.crates@[eco.crates.keys()[j]].publishable,
        },
    decreases eco.crates.keys().len() - i,
{
    if i < eco.crates.keys().len() {
        law_first_of_a_repo(eco, dir, publishable_only, i + 1);
    }
}

/// A workflow is generated for a crate of the repo, and for a publishable one where there is one.
pub proof fn law_primary_is_publishable(eco: Ecosystem, dir: Seq<char>, i: int)
    requires
        0 <= i < eco.crates.keys().len(),
        eco.crates@[eco.crates.keys()[i]].repo_dir@ == dir,
    ensures
        exists|k: int|
            0 <= k < eco.crates.keys().len()
                && eco.crates@[#[trigger] eco.crates.keys()[k]].repo_dir@
                == dir && primary(eco, dir) == eco.crates@[eco.crates.keys()[k]].name@ && (
            eco.crates@[eco.crates.keys()[i]].publishable
                ==> eco.crates@[eco.crates.keys()[k]].publishable && k <= i),
{
    law_first_of_a_repo(eco, dir, true, 0);
    law_first_of_a_repo(eco, dir, false, 0);
    let k = match first_in(eco, dir, true, 0) {
        Some(k) => k,
        None => first_in(eco, dir, false, 0).unwrap(),
    };
    assert(eco.crates@[eco.crates.keys()[k]].repo_dir@ == dir);
}

proof fn lemma_no_place(s: Seq<char>, p: Seq<char>)
    requires
        !s.contains('{'),
        p.len() > 0,
        p[0] == '{',
    ensures
        forall|i: int| !text::occurs_at(s, p, i),
{
    assert forall|i: int| !text::occurs_at(s, p, i) by {
        if text::occurs_at(s, p, i) {
            assert(s.subrange(i, i + p.len())[0] == s[i]);
        }
    }
}

/// A variable put into a text around it.
proof fn lemma_put_in(a: Seq<char>, p: Seq<char>, b: Seq<char>, v: Seq<char>)
    requires
        !a.contains('{'),
        !b.contains('{'),
        p.len() > 0,
        p[0] == '{',
    ensures
        text::replaced(a + p + b, p, v) == a + v + b,
{
    let s = a + p + b;
    let n = a.len() as int;
    assert(s.subrange(n, n + p.len()) =~= p);
    assert forall|k: int| 0 <= k < n implies #[trigger] s[k] != '{' by {
        assert(s[k] == a[k]);
    }
    lemma_first_place(s, p, n);
    lemma_stays(b, p, v);
    assert(s.take(n) =~= a);
    assert(s.skip(n + p.len()) =~= b);
    assert(text::replaced(s, p, v) == s.take(n) + v + text::replaced(s.skip(n + p.len()), p, v))
        by {
        text::law_replaced(s, p, v);
    }
}

proof fn lemma_first_place(s: Seq<char>, p: Seq<char>, n: int)
    requires
        0 <= n,
        text::occurs_at(s, p, n),
        p.len() > 0,
        p[0] == '{',
        forall|k: int| 0 <= k < n ==> #[trigger] s[k] != '{',
    ensures
        text::first_at(s, p, 0) == Some(n),
{
    text::law_first_at(s, p, 0);
    match text::first_at(s, p, 0) {
        Some(k) => {
            if k < n {
                assert(s.subrange(k, k + p.len())[0] == s[k]);
            } else if k > n {
                assert(text::occurs_at(s, p, n));
            }
        },
        None => {
            assert(text::occurs_at(s, p, n));
        },
    }
}

/// A text without a brace asks for no variable.
proof fn lemma_stays(s: Seq<char>, p: Seq<char>, v: Seq<char>)
    requires
        !s.contains('{'),
        p.len() > 0,
        p[0] == '{',
    ensures
        text::replaced(s, p, v) == s,
{
    assert(text::first_at(s, p, 0) is None) by {
        lemma_no_place(s, p);
        text::law_first_at(s, p, 0);
    }
    text::law_replaced(s, p, v);
}

/// A variable that a text does not ask for leaves it alone.
proof fn lemma_not_asked_for(a: Seq<char>, p: Seq<char>, b: Seq<char>, q: Seq<char>, v: Seq<char>)
    requires
        !a.contains('{'),
        !b.contains('{'),
        p.len() > 2,
        q.len() > 2,
        p[0] == '{' && p[1] == '{',
        q[0] == '{' && q[1] == '{' && q[2] != p[2],
        forall|k: int| 2 <= k < p.len() ==> #[trigger] p[k] != '{',
    ensures
        text::replaced(a + p + b, q, v) == a + p + b,
{
    let s = a + p + b;
    let n = a.len() as int;
    assert forall|j: int| 0 <= j implies !text::occurs_at(s, q, j) by {
        if text::occurs_at(s, q, j) {
            let here = s.subrange(j, j + q.len());
            assert(here[0] == s[j]);
            assert(here[1] == s[j + 1]);
            assert(here[2] == s[j + 2]);
            if j < n {
                assert(s[j] == a[j]);
                assert(a.contains('{'));
            } else if j == n {
                assert(s[j + 2] == p[2]);
            } else if j == n + 1 {
                assert(s[j + 1] == p[2]);
            } else if j < n + p.len() {
                assert(s[j] == p[j - n]);
            } else {
                assert(s[j] == b[j - n - p.len()]);
                assert(b.contains('{'));
            }
        }
    }
    text::law_first_at(s, q, 0);
    text::law_replaced(s, q, v);
}

/// A template gets the name of the crate, the directory of the repo and the oldest compiler where
/// it asks for them, and is else left as it is.
pub proof fn law_templates(a: Seq<char>, b: Seq<char>, crate_name: Seq<char>, dir: Seq<char>)
    requires
        !a.contains('{'),
        !b.contains('{'),
        !crate_name.contains('{'),
        !dir.contains('{'),
    ensures
        rendered(a + "{{crate_name}}"@ + b, crate_name, dir) == a + crate_name + b,
        rendered(a + "{{repo_dir}}"@ + b, crate_name, dir) == a + dir + b,
        rendered(a + "{{msrv}}"@ + b, crate_name, dir) == a + "1.85"@ + b,
        rendered(a, crate_name, dir) == a,
{
    reveal_strlit("{{crate_name}}");
    reveal_strlit("{{repo_dir}}");
    reveal_strlit("{{msrv}}");
    reveal_strlit("1.85");
    let c = "{{crate_name}}"@;
    let d = "{{repo_dir}}"@;
    let m = "{{msrv}}"@;
    lemma_put_in(a, c, b, crate_name);
    lemma_put_in(a, d, b, dir);
    lemma_put_in(a, m, b, "1.85"@);
    lemma_not_asked_for(a, d, b, c, crate_name);
    lemma_not_asked_for(a, m, b, c, crate_name);
    lemma_not_asked_for(a, m, b, d, dir);
    lemma_untouched(a, crate_name, b, d, dir);
    lemma_untouched(a, crate_name, b, m, "1.85"@);
    lemma_untouched(a, dir, b, m, "1.85"@);
    lemma_untouched(a, Seq::empty(), Seq::empty(), c, crate_name);
    lemma_untouched(a, Seq::empty(), Seq::empty(), d, dir);
    lemma_untouched(a, Seq::empty(), Seq::empty(), m, "1.85"@);
    assert(a + Seq::<char>::empty() + Seq::<char>::empty() =~= a);
}

proof fn lemma_untouched(a: Seq<char>, v: Seq<char>, b: Seq<char>, p: Seq<char>, to: Seq<char>)
    requires
        !a.contains('{'),
        !v.contains('{'),
        !b.contains('{'),
        p.len() > 0,
        p[0] == '{',
    ensures
        text::replaced(a + v + b, p, to) == a + v + b,
{
    let s = a + v + b;
    assert(!s.contains('{')) by {
        if s.contains('{') {
            let k = s.index_of('{');
            if k < a.len() {
                assert(a[k] == '{');
            } else if k < a.len() + v.len() {
                assert(v[k - a.len()] == '{');
            } else {
                assert(b[k - a.len() - v.len()] == '{');
            }
        }
    }
    lemma_stays(s, p, to);
}

} // verus!
