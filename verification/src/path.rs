//! Slash-separated paths, as text.
//!
//! A path is a root marker and a list of parts. Empty parts and inner `.` parts
//! say nothing, so two texts with the same root marker and parts are one path. A
//! backslash is a character like any other, and there are no drive letters.

use vstd::prelude::*;
use vstd::string::*;

use crate::text;

verus! {

/// Whether the path starts at the root.
pub open spec fn rooted(s: Seq<char>) -> bool {
    s.len() > 0 && s[0] == '/'
}

pub open spec fn dot() -> Seq<char> {
    seq!['.']
}

pub open spec fn dots() -> Seq<char> {
    seq!['.', '.']
}

pub open spec fn slash() -> Seq<char> {
    seq!['/']
}

/// Whether the piece at place `i` is a part of the path.
pub open spec fn is_part(piece: Seq<char>, i: int) -> bool {
    piece.len() > 0 && (piece != dot() || i == 0)
}

/// The parts among the first `n` pieces.
pub open spec fn parts_among(pieces: Seq<Seq<char>>, n: nat) -> Seq<Seq<char>>
    decreases n,
{
    if n == 0 {
        Seq::empty()
    } else if is_part(pieces[n - 1], n - 1) {
        parts_among(pieces, (n - 1) as nat).push(pieces[n - 1])
    } else {
        parts_among(pieces, (n - 1) as nat)
    }
}

/// The parts of a path.
pub open spec fn parts(s: Seq<char>) -> Seq<Seq<char>> {
    parts_among(text::split(s, '/'), text::split(s, '/').len())
}

/// Whether a part names an entry of a directory.
pub open spec fn is_name(part: Seq<char>) -> bool {
    part != dot() && part != dots()
}

/// The path written down from its root marker and its parts.
pub open spec fn render(root: bool, ps: Seq<Seq<char>>) -> Seq<char> {
    if root {
        slash() + text::join(ps, slash())
    } else {
        text::join(ps, slash())
    }
}

/// Whether two texts write down one path.
pub open spec fn is_same(a: Seq<char>, b: Seq<char>) -> bool {
    rooted(a) == rooted(b) && parts(a) == parts(b)
}

/// The name at the end of the path.
pub open spec fn file_name(s: Seq<char>) -> Option<Seq<char>> {
    if parts(s).len() > 0 && is_name(parts(s).last()) {
        Some(parts(s).last())
    } else {
        None
    }
}

/// The path without its last part.
pub open spec fn parent(s: Seq<char>) -> Option<Seq<char>> {
    if parts(s).len() > 0 {
        Some(render(rooted(s), parts(s).drop_last()))
    } else {
        None
    }
}

/// `rel` as seen from `base`.
pub open spec fn joined(base: Seq<char>, rel: Seq<char>) -> Seq<char> {
    if rooted(rel) {
        rel
    } else if base.len() == 0 || base.last() == '/' {
        base + rel
    } else {
        base + slash() + rel
    }
}

/// Whether the path lies at or below `base`; below the empty path lies every path.
pub open spec fn below(s: Seq<char>, base: Seq<char>) -> bool {
    (rooted(s) == rooted(base) || !rooted(base) && parts(base).len() == 0)
        && parts(base).is_prefix_of(parts(s))
}

/// What leads from `base` down to the path.
pub open spec fn beneath(s: Seq<char>, base: Seq<char>) -> Option<Seq<char>> {
    if below(s, base) {
        Some(render(rooted(s) && !rooted(base), parts(s).skip(parts(base).len() as int)))
    } else {
        None
    }
}

/// The parts left once `.` and `..` are carried out, `..` at the top doing nothing.
pub open spec fn folded(ps: Seq<Seq<char>>) -> Seq<Seq<char>>
    decreases ps.len(),
{
    if ps.len() == 0 {
        ps
    } else {
        let before = folded(ps.drop_last());
        if ps.last() == dots() {
            if before.len() > 0 {
                before.drop_last()
            } else {
                before
            }
        } else if ps.last() == dot() {
            before
        } else {
            before.push(ps.last())
        }
    }
}

/// The path with `.` and `..` carried out on its text alone.
pub open spec fn normal(s: Seq<char>) -> Seq<char> {
    render(rooted(s), folded(parts(s)))
}

/// How many leading parts two lists share.
pub open spec fn shared(a: Seq<Seq<char>>, b: Seq<Seq<char>>) -> nat
    decreases a.len(),
{
    if a.len() > 0 && b.len() > 0 && a[0] == b[0] {
        1 + shared(a.drop_first(), b.drop_first())
    } else {
        0
    }
}

/// `n` steps up.
pub open spec fn ups(n: nat) -> Seq<Seq<char>> {
    Seq::new(n, |i: int| dots())
}

/// The parts that lead from one directory to another, both at the root or both not.
pub open spec fn way(from: Seq<Seq<char>>, to: Seq<Seq<char>>) -> Seq<Seq<char>> {
    ups((from.len() - shared(from, to)) as nat) + to.skip(shared(from, to) as int)
}

/// The path that leads from one directory to another.
pub open spec fn relative(from: Seq<char>, to: Seq<char>) -> Seq<char> {
    if rooted(from) == rooted(to) {
        text::join(way(parts(from), parts(to)), slash())
    } else if rooted(to) {
        render(true, parts(to))
    } else {
        text::join(ups(parts(from).len() + 1) + parts(to), slash())
    }
}

// ── Laws ──

proof fn lemma_shared_bound(a: Seq<Seq<char>>, b: Seq<Seq<char>>)
    ensures
        shared(a, b) <= a.len(),
        shared(a, b) <= b.len(),
        a.take(shared(a, b) as int) == b.take(shared(a, b) as int),
    decreases a.len(),
{
    if a.len() > 0 && b.len() > 0 && a[0] == b[0] {
        let (x, y) = (a.drop_first(), b.drop_first());
        lemma_shared_bound(x, y);
        let n = shared(x, y) as int;
        assert forall|i: int| 0 <= i < n + 1 implies a[i] == b[i] by {
            if i > 0 {
                assert(x.take(n)[i - 1] == a[i] && y.take(n)[i - 1] == b[i]);
            }
        }
        assert(a.take(n + 1) =~= b.take(n + 1));
    } else {
        assert(a.take(0) =~= b.take(0));
    }
}

proof fn lemma_folded_names(ps: Seq<Seq<char>>)
    requires
        forall|i: int| 0 <= i < ps.len() ==> is_name(#[trigger] ps[i]),
    ensures
        folded(ps) == ps,
    decreases ps.len(),
{
    if ps.len() > 0 {
        let init = ps.drop_last();
        assert forall|i: int| 0 <= i < init.len() implies is_name(#[trigger] init[i]) by {
            assert(init[i] == ps[i]);
        }
        lemma_folded_names(init);
        assert(is_name(ps[ps.len() - 1]));
        assert(init.push(ps.last()) =~= ps);
    }
}

proof fn lemma_folded_ups(ps: Seq<Seq<char>>, n: nat)
    requires
        forall|i: int| 0 <= i < ps.len() ==> is_name(#[trigger] ps[i]),
        n <= ps.len(),
    ensures
        folded(ps + ups(n)) == ps.take(ps.len() - n),
    decreases n,
{
    if n == 0 {
        assert(ps + ups(n) =~= ps);
        assert(ps.take(ps.len() as int) =~= ps);
        lemma_folded_names(ps);
    } else {
        lemma_folded_ups(ps, (n - 1) as nat);
        let all = ps + ups(n);
        assert(all.drop_last() =~= ps + ups((n - 1) as nat));
        assert(all.last() == dots());
        assert(ps.take(ps.len() - n + 1).drop_last() =~= ps.take(ps.len() - n));
    }
}

proof fn lemma_folded_append(ps: Seq<Seq<char>>, names: Seq<Seq<char>>)
    requires
        forall|i: int| 0 <= i < names.len() ==> is_name(#[trigger] names[i]),
    ensures
        folded(ps + names) == folded(ps) + names,
    decreases names.len(),
{
    if names.len() == 0 {
        assert(ps + names =~= ps);
        assert(folded(ps) + names =~= folded(ps));
    } else {
        let init = names.drop_last();
        assert forall|i: int| 0 <= i < init.len() implies is_name(#[trigger] init[i]) by {
            assert(init[i] == names[i]);
        }
        lemma_folded_append(ps, init);
        assert((ps + names).drop_last() =~= ps + init);
        assert(is_name(names[names.len() - 1]));
        assert((folded(ps) + init).push(names.last()) =~= folded(ps) + names);
    }
}

/// Going the way from one directory to another arrives there.
pub proof fn law_way_arrives(from: Seq<Seq<char>>, to: Seq<Seq<char>>)
    requires
        forall|i: int| 0 <= i < from.len() ==> is_name(#[trigger] from[i]),
        forall|i: int| 0 <= i < to.len() ==> is_name(#[trigger] to[i]),
    ensures
        folded(from + way(from, to)) == to,
{
    lemma_shared_bound(from, to);
    let n = shared(from, to);
    let up = (from.len() - n) as nat;
    lemma_folded_ups(from, up);
    let down = to.skip(n as int);
    assert forall|i: int| 0 <= i < down.len() implies is_name(#[trigger] down[i]) by {
        assert(down[i] == to[n + i]);
    }
    lemma_folded_append(from + ups(up), down);
    assert(from + way(from, to) =~= from + ups(up) + down);
    assert(to.take(n as int) + down =~= to);
}

/// Carrying out `.` and `..` a second time changes nothing.
pub proof fn law_folded_idempotent(ps: Seq<Seq<char>>)
    ensures
        forall|i: int| 0 <= i < folded(ps).len() ==> is_name(#[trigger] folded(ps)[i]),
        folded(folded(ps)) == folded(ps),
    decreases ps.len(),
{
    if ps.len() > 0 {
        law_folded_idempotent(ps.drop_last());
    }
    lemma_folded_names(folded(ps));
}

/// Whether a list of parts can be read back from its text.
pub open spec fn plain(ps: Seq<Seq<char>>) -> bool {
    forall|i: int|
        0 <= i < ps.len() ==> (#[trigger] ps[i]).len() > 0 && !ps[i].contains('/') && (ps[i]
            != dot() || i == 0)
}

proof fn lemma_parts_among_all(pieces: Seq<Seq<char>>, n: nat)
    requires
        n <= pieces.len(),
        forall|i: int| 0 <= i < n ==> is_part(#[trigger] pieces[i], i),
    ensures
        parts_among(pieces, n) == pieces.take(n as int),
    decreases n,
{
    if n > 0 {
        lemma_parts_among_all(pieces, (n - 1) as nat);
        assert(is_part(pieces[n - 1], n - 1));
        assert(pieces.take(n as int) =~= pieces.take(n - 1).push(pieces[n - 1]));
    } else {
        assert(pieces.take(0) =~= Seq::<Seq<char>>::empty());
    }
}

proof fn lemma_parts_shift(pieces: Seq<Seq<char>>, n: nat)
    requires
        1 <= n <= pieces.len(),
        pieces[0].len() == 0,
        forall|i: int|
            1 <= i < n ==> (#[trigger] pieces[i]).len() > 0 && pieces[i] != dot(),
    ensures
        parts_among(pieces, n) == pieces.subrange(1, n as int),
    decreases n,
{
    if n > 1 {
        lemma_parts_shift(pieces, (n - 1) as nat);
        assert(is_part(pieces[n - 1], n - 1));
        assert(pieces.subrange(1, n as int) =~= pieces.subrange(1, n - 1).push(pieces[n - 1]));
    } else {
        reveal_with_fuel(parts_among, 2);
        assert(parts_among(pieces, n) =~= pieces.subrange(1, n as int));
    }
}

/// A path written down from its root marker and its parts is read back as they are.
pub proof fn law_render_reads_back(root: bool, ps: Seq<Seq<char>>)
    requires
        plain(ps),
        root ==> ps.len() > 0 && ps[0] != dot(),
        !root ==> ps.len() > 0,
    ensures
        rooted(render(root, ps)) == root,
        parts(render(root, ps)) == ps,
{
    assert forall|i: int| 0 <= i < ps.len() implies !(#[trigger] ps[i]).contains('/') by {}
    text::lemma_split_join(ps, '/');
    let body = text::join(ps, slash());
    if root {
        text::lemma_split_around(Seq::empty(), body, '/');
        assert(Seq::<char>::empty() + slash() + body =~= slash() + body);
        let pieces = text::split(slash() + body, '/');
        assert(text::split(Seq::<char>::empty(), '/') =~= seq![Seq::<char>::empty()]);
        assert(pieces =~= seq![Seq::<char>::empty()] + ps);
        assert forall|i: int| 1 <= i < pieces.len() implies (#[trigger] pieces[i]).len() > 0
            && pieces[i] != dot() by {
            assert(pieces[i] == ps[i - 1]);
        }
        lemma_parts_shift(pieces, pieces.len());
        assert(pieces.subrange(1, pieces.len() as int) =~= ps);
    } else {
        assert forall|i: int| 0 <= i < ps.len() implies is_part(#[trigger] ps[i], i) by {}
        lemma_parts_among_all(ps, ps.len());
        assert(ps.take(ps.len() as int) =~= ps);
        if rooted(body) {
            lemma_join_starts(ps);
            assert(ps[0].contains(body[0]));
        }
    }
}

proof fn lemma_join_starts(ps: Seq<Seq<char>>)
    requires
        ps.len() > 0,
        ps[0].len() > 0,
    ensures
        text::join(ps, slash()).len() > 0,
        text::join(ps, slash())[0] == ps[0][0],
    decreases ps.len(),
{
    if ps.len() > 1 {
        lemma_join_starts(ps.drop_last());
    }
}

proof fn lemma_parts_are_pieces(pieces: Seq<Seq<char>>, n: nat)
    requires
        n <= pieces.len(),
        forall|i: int| 0 <= i < pieces.len() ==> !(#[trigger] pieces[i]).contains('/'),
    ensures
        forall|i: int|
            0 <= i < parts_among(pieces, n).len() ==> (#[trigger] parts_among(pieces, n)[i]).len()
                > 0 && !parts_among(pieces, n)[i].contains('/'),
    decreases n,
{
    if n > 0 {
        lemma_parts_are_pieces(pieces, (n - 1) as nat);
        let before = parts_among(pieces, (n - 1) as nat);
        assert forall|i: int| 0 <= i < parts_among(pieces, n).len() implies (
        #[trigger] parts_among(pieces, n)[i]).len() > 0 && !parts_among(pieces, n)[i].contains(
            '/',
        ) by {
            if i < before.len() {
                assert(parts_among(pieces, n)[i] == before[i]);
            }
        }
    }
}

proof fn lemma_parts_among_prefix(a: Seq<Seq<char>>, b: Seq<Seq<char>>, n: nat)
    requires
        n <= a.len(),
    ensures
        parts_among(a + b, n) == parts_among(a, n),
    decreases n,
{
    if n > 0 {
        lemma_parts_among_prefix(a, b, (n - 1) as nat);
        assert((a + b)[n - 1] == a[n - 1]);
    }
}

proof fn lemma_parts_among_append(a: Seq<Seq<char>>, b: Seq<Seq<char>>, n: nat)
    requires
        a.len() > 0,
        n <= b.len(),
        forall|i: int| 0 <= i < b.len() ==> (#[trigger] b[i]).len() > 0 && b[i] != dot(),
    ensures
        parts_among(a + b, a.len() + n) == parts_among(a, a.len()) + b.take(n as int),
    decreases n,
{
    if n == 0 {
        lemma_parts_among_prefix(a, b, a.len());
        assert(parts_among(a, a.len()) + b.take(0) =~= parts_among(a, a.len()));
    } else {
        lemma_parts_among_append(a, b, (n - 1) as nat);
        assert((a + b)[a.len() + n - 1] == b[n - 1]);
        assert(parts_among(a, a.len()) + b.take(n as int) =~= (parts_among(a, a.len()) + b.take(
            n - 1,
        )).push(b[n - 1]));
    }
}

/// The parts of a path joined to a base are those of both.
proof fn lemma_parts_joined(base: Seq<char>, ps: Seq<Seq<char>>)
    requires
        base.len() > 0,
        forall|i: int|
            0 <= i < ps.len() ==> (#[trigger] ps[i]).len() > 0 && !ps[i].contains('/') && ps[i]
                != dot(),
    ensures
        parts(joined(base, text::join(ps, slash()))) == parts(base) + ps,
        rooted(joined(base, text::join(ps, slash()))) == rooted(base),
{
    let rel = text::join(ps, slash());
    let whole = joined(base, rel);
    let none = Seq::<char>::empty();
    if ps.len() > 0 {
        text::lemma_split_join(ps, '/');
        lemma_join_starts(ps);
        if rooted(rel) {
            assert(ps[0].contains(rel[0]));
        }
    } else {
        assert(rel =~= none);
        assert(text::split(rel, '/') =~= seq![none]);
    }
    let lead = if base.last() == '/' {
        base.drop_last()
    } else {
        base
    };
    assert(whole =~= lead + slash() + rel);
    text::lemma_split_around(lead, rel, '/');
    text::lemma_split_nonempty(lead, '/');
    let pieces = text::split(lead, '/');
    // A slash at the end adds an empty piece, which is no part.
    if base.last() == '/' {
        assert(base =~= lead + slash() + none);
        text::lemma_split_around(lead, none, '/');
        assert(text::split(none, '/') =~= seq![none]);
        assert(text::split(base, '/') == pieces + seq![none]);
        lemma_parts_among_prefix(pieces, seq![none], pieces.len());
        assert((pieces + seq![none])[pieces.len() as int] == none);
    }
    assert(parts(base) == parts_among(pieces, pieces.len()));
    if ps.len() > 0 {
        lemma_parts_among_append(pieces, ps, ps.len());
        assert(ps.take(ps.len() as int) =~= ps);
    } else {
        lemma_parts_among_prefix(pieces, seq![none], pieces.len());
        assert((pieces + seq![none])[pieces.len() as int] == none);
        assert(parts(base) + ps =~= parts(base));
    }
}

/// The relative path between two directories leads from the one to the other.
pub proof fn law_relative_path_arrives(from: Seq<char>, to: Seq<char>)
    requires
        rooted(from),
        rooted(to),
        forall|i: int| 0 <= i < parts(from).len() ==> is_name(#[trigger] parts(from)[i]),
        forall|i: int| 0 <= i < parts(to).len() ==> is_name(#[trigger] parts(to)[i]),
    ensures
        is_same(normal(joined(from, relative(from, to))), to),
{
    let fs = parts(from);
    let ts = parts(to);
    let steps = way(fs, ts);
    text::lemma_join_split(to, '/');
    lemma_parts_are_pieces(text::split(to, '/'), text::split(to, '/').len());
    lemma_shared_bound(fs, ts);
    let n = shared(fs, ts);
    let up = (fs.len() - n) as nat;
    assert forall|i: int| 0 <= i < steps.len() implies (#[trigger] steps[i]).len() > 0
        && !steps[i].contains('/') && steps[i] != dot() by {
        if i < up {
            assert(steps[i] == dots());
            assert(dots()[0] != '/' && dots()[1] != '/');
            assert(dots().len() != dot().len());
        } else {
            assert(steps[i] == ts[n + i - up]);
        }
    }
    lemma_parts_joined(from, steps);
    law_way_arrives(fs, ts);
    if ts.len() > 0 {
        assert forall|i: int| 0 <= i < ts.len() implies (#[trigger] ts[i]).len() > 0
            && !ts[i].contains('/') && (ts[i] != dot() || i == 0) by {
            assert(is_name(ts[i]));
        }
        assert(is_name(ts[0]));
        law_render_reads_back(true, ts);
    } else {
        let s = render(true, ts);
        let none = Seq::<char>::empty();
        assert(s =~= none + slash() + none);
        text::lemma_split_around(none, none, '/');
        assert(text::split(none, '/') =~= seq![none]);
        assert(text::split(s, '/') =~= seq![none, none]);
        reveal_with_fuel(parts_among, 3);
        assert(parts(s) =~= ts);
    }
}

// ── Executable operations ──

/// Whether the path starts at the root.
pub fn is_rooted(s: &str) -> (r: bool)
    ensures
        r == rooted(s@),
{
    let cs = text::chars_of(s);
    cs.len() > 0 && cs[0] == '/'
}

fn is_dot(s: &str) -> (r: bool)
    ensures
        r == (s@ == dot()),
{
    proof {
        reveal_strlit(".");
    }
    assert("."@ =~= dot());
    text::same(s, ".")
}

fn is_dots(s: &str) -> (r: bool)
    ensures
        r == (s@ == dots()),
{
    proof {
        reveal_strlit("..");
    }
    assert(".."@ =~= dots());
    text::same(s, "..")
}

/// The parts of a path.
pub fn parts_of(s: &str) -> (r: Vec<String>)
    ensures
        text::texts(r@) == parts(s@),
{
    let pieces = text::split_on(s, '/');
    let mut out: Vec<String> = Vec::new();
    let mut i: usize = 0;
    while i < pieces.len()
        invariant
            i <= pieces.len(),
            text::texts(out@) == parts_among(text::texts(pieces@), i as nat),
        decreases pieces.len() - i,
    {
        let piece = pieces[i].as_str();
        assert(text::texts(pieces@)[i as int] == piece@);
        if !piece.is_empty() && (i == 0 || !is_dot(piece)) {
            let ghost sofar = text::texts(out@);
            out.push(pieces[i].clone());
            assert(text::texts(out@) =~= sofar.push(piece@));
        }
        i += 1;
    }
    out
}

fn slashed(ps: &Vec<String>) -> (r: String)
    ensures
        r@ == text::join(text::texts(ps@), slash()),
{
    proof {
        reveal_strlit("/");
    }
    assert("/"@ =~= slash());
    text::join_with(ps, "/")
}

fn render_parts(root: bool, ps: &Vec<String>) -> (r: String)
    ensures
        r@ == render(root, text::texts(ps@)),
{
    let body = slashed(ps);
    if root {
        let mut out = String::new();
        out.push('/');
        out.append(body.as_str());
        assert(out@ =~= slash() + body@);
        out
    } else {
        body
    }
}

/// Whether two texts write down one path.
pub fn same_path(a: &str, b: &str) -> (r: bool)
    ensures
        r == is_same(a@, b@),
{
    if is_rooted(a) != is_rooted(b) {
        return false;
    }
    let xs = parts_of(a);
    let ys = parts_of(b);
    assert(text::texts(xs@).len() == xs.len() && text::texts(ys@).len() == ys.len());
    if xs.len() != ys.len() {
        return false;
    }
    let mut i: usize = 0;
    while i < xs.len()
        invariant
            i <= xs.len(),
            forall|j: int| 0 <= j < i ==> xs@[j]@ == ys@[j]@,
        decreases xs.len() - i,
    {
        if !text::same(xs[i].as_str(), ys[i].as_str()) {
            assert(text::texts(xs@)[i as int] != text::texts(ys@)[i as int]);
            return false;
        }
        i += 1;
    }
    assert(text::texts(xs@) =~= text::texts(ys@));
    true
}

/// The name at the end of the path.
pub fn file_name_of(s: &str) -> (r: Option<String>)
    ensures
        match r {
            Some(n) => file_name(s@) == Some(n@),
            None => file_name(s@) is None,
        },
{
    let ps = parts_of(s);
    if ps.len() == 0 {
        return None;
    }
    let last = ps[ps.len() - 1].as_str();
    assert(text::texts(ps@).last() == last@);
    if is_dot(last) || is_dots(last) {
        None
    } else {
        Some(ps[ps.len() - 1].clone())
    }
}

/// The path without its last part.
pub fn parent_of(s: &str) -> (r: Option<String>)
    ensures
        match r {
            Some(n) => parent(s@) == Some(n@),
            None => parent(s@) is None,
        },
{
    let mut ps = parts_of(s);
    if ps.len() == 0 {
        return None;
    }
    let ghost all = text::texts(ps@);
    ps.pop();
    assert(text::texts(ps@) =~= all.drop_last());
    Some(render_parts(is_rooted(s), &ps))
}

/// `rel` as seen from `base`.
pub fn join_path(base: &str, rel: &str) -> (r: String)
    ensures
        r@ == joined(base@, rel@),
{
    if is_rooted(rel) {
        return rel.to_string();
    }
    let cs = text::chars_of(base);
    let mut out = base.to_string();
    if cs.len() > 0 && cs[cs.len() - 1] != '/' {
        out.push('/');
        assert(out@ =~= base@ + slash());
    }
    out.append(rel);
    out
}

/// What leads from `base` down to the path, if it lies at or below `base`.
pub fn strip_base(s: &str, base: &str) -> (r: Option<String>)
    ensures
        match r {
            Some(n) => beneath(s@, base@) == Some(n@),
            None => beneath(s@, base@) is None,
        },
{
    let root = is_rooted(s);
    let base_root = is_rooted(base);
    let ps = parts_of(s);
    let bs = parts_of(base);
    if root != base_root && (base_root || bs.len() > 0) {
        return None;
    }
    if bs.len() > ps.len() {
        return None;
    }
    let mut i: usize = 0;
    while i < bs.len()
        invariant
            i <= bs.len() <= ps.len(),
            forall|j: int| 0 <= j < i ==> ps@[j]@ == bs@[j]@,
        decreases bs.len() - i,
    {
        if !text::same(ps[i].as_str(), bs[i].as_str()) {
            assert(text::texts(ps@).subrange(0, bs.len() as int)[i as int] != text::texts(
                bs@,
            )[i as int]);
            return None;
        }
        i += 1;
    }
    assert(text::texts(bs@) =~= text::texts(ps@).subrange(0, bs.len() as int));
    let rest = tail(&ps, i);
    Some(render_parts(root && !base_root, &rest))
}

/// The texts from place `from` on.
fn tail(ps: &Vec<String>, from: usize) -> (r: Vec<String>)
    requires
        from <= ps.len(),
    ensures
        text::texts(r@) == text::texts(ps@).skip(from as int),
{
    let mut out: Vec<String> = Vec::new();
    let mut i: usize = from;
    while i < ps.len()
        invariant
            from <= i <= ps.len(),
            text::texts(out@) == text::texts(ps@).subrange(from as int, i as int),
        decreases ps.len() - i,
    {
        let ghost sofar = text::texts(out@);
        out.push(ps[i].clone());
        assert(text::texts(out@) =~= sofar.push(ps@[i as int]@));
        i += 1;
    }
    assert(text::texts(ps@).skip(from as int) =~= text::texts(ps@).subrange(
        from as int,
        ps.len() as int,
    ));
    out
}

/// Lexically normalizes a path: carries out `.` and `..` without asking the filesystem.
pub fn normalize_path(s: &str) -> (r: String)
    ensures
        r@ == normal(s@),
{
    let ps = parts_of(s);
    let mut stack: Vec<String> = Vec::new();
    let mut i: usize = 0;
    assert(text::texts(ps@).take(0) =~= Seq::<Seq<char>>::empty());
    while i < ps.len()
        invariant
            i <= ps.len(),
            text::texts(stack@) == folded(text::texts(ps@).take(i as int)),
        decreases ps.len() - i,
    {
        let ghost upto = text::texts(ps@).take(i + 1);
        assert(upto.drop_last() =~= text::texts(ps@).take(i as int));
        assert(upto.last() == ps@[i as int]@);
        assert(dot() != dots()) by {
            assert(dot().len() != dots().len());
        }
        let ghost sofar = text::texts(stack@);
        let part = ps[i].as_str();
        if is_dots(part) {
            if stack.len() > 0 {
                stack.pop();
                assert(text::texts(stack@) =~= sofar.drop_last());
            }
        } else if !is_dot(part) {
            stack.push(ps[i].clone());
            assert(text::texts(stack@) =~= sofar.push(part@));
        }
        i += 1;
    }
    assert(text::texts(ps@).take(i as int) =~= text::texts(ps@));
    render_parts(is_rooted(s), &stack)
}

/// How many leading parts two lists share.
fn shared_len(a: &Vec<String>, b: &Vec<String>) -> (r: usize)
    ensures
        r == shared(text::texts(a@), text::texts(b@)),
        r <= a.len(),
        r <= b.len(),
{
    let ghost x = text::texts(a@);
    let ghost y = text::texts(b@);
    let mut i: usize = 0;
    assert(x.skip(0) =~= x && y.skip(0) =~= y);
    while i < a.len() && i < b.len() && text::same(a[i].as_str(), b[i].as_str())
        invariant
            i <= a.len(),
            i <= b.len(),
            x == text::texts(a@),
            y == text::texts(b@),
            shared(x, y) == i + shared(x.skip(i as int), y.skip(i as int)),
        decreases a.len() - i,
    {
        assert(x.skip(i as int).drop_first() =~= x.skip(i + 1));
        assert(y.skip(i as int).drop_first() =~= y.skip(i + 1));
        i += 1;
    }
    i
}

/// Computes the path that leads from one directory to another.
pub fn relative_path(from: &str, to: &str) -> (r: String)
    ensures
        r@ == relative(from@, to@),
{
    let fs = parts_of(from);
    let ts = parts_of(to);
    let froot = is_rooted(from);
    let troot = is_rooted(to);
    if troot && !froot {
        return render_parts(true, &ts);
    }
    let common: usize = if froot == troot {
        shared_len(&fs, &ts)
    } else {
        0
    };
    let mut out: Vec<String> = Vec::new();
    if froot != troot {
        out.push("..".to_string());
    }
    proof {
        reveal_strlit("..");
        assert(".."@ =~= dots());
    }
    let ghost extra = out.len();
    assert(text::texts(out@) =~= ups(extra as nat));
    let mut i: usize = common;
    while i < fs.len()
        invariant
            common <= i <= fs.len(),
            ".."@ == dots(),
            text::texts(out@) == ups((extra + i - common) as nat),
        decreases fs.len() - i,
    {
        let ghost sofar = text::texts(out@);
        out.push("..".to_string());
        assert(text::texts(out@) =~= sofar.push(dots()));
        assert(ups((extra + i + 1 - common) as nat) =~= sofar.push(dots()));
        i += 1;
    }
    let ghost lead = text::texts(out@);
    let mut j: usize = common;
    assert(lead + text::texts(ts@).subrange(common as int, common as int) =~= lead);
    while j < ts.len()
        invariant
            common <= j <= ts.len(),
            text::texts(out@) == lead + text::texts(ts@).subrange(common as int, j as int),
        decreases ts.len() - j,
    {
        let ghost sofar = text::texts(out@);
        out.push(ts[j].clone());
        assert(text::texts(out@) =~= sofar.push(ts@[j as int]@));
        assert(lead + text::texts(ts@).subrange(common as int, j + 1) =~= sofar.push(
            ts@[j as int]@,
        ));
        j += 1;
    }
    assert(text::texts(ts@).skip(common as int) =~= text::texts(ts@).subrange(
        common as int,
        ts.len() as int,
    ));
    assert(text::texts(ts@).skip(0) =~= text::texts(ts@));
    slashed(&out)
}

// ── The order of paths ──

/// A part, marked so that texts order as parts do: `.` before `..` before names.
pub open spec fn marked(part: Seq<char>) -> Seq<char> {
    if part == dot() {
        seq!['1']
    } else if part == dots() {
        seq!['2']
    } else {
        seq!['3'] + part
    }
}

/// The root marker and the parts of a path, marked.
pub open spec fn components(s: Seq<char>) -> Seq<Seq<char>> {
    let ps = parts(s).map_values(|p: Seq<char>| marked(p));
    if rooted(s) {
        seq![seq!['0']] + ps
    } else {
        ps
    }
}

/// Whether a list of texts comes before another.
pub open spec fn list_before(a: Seq<Seq<char>>, b: Seq<Seq<char>>) -> bool
    decreases a.len(),
{
    if b.len() == 0 {
        false
    } else if a.len() == 0 {
        true
    } else {
        text::precedes(a[0], b[0]) || (a[0] == b[0] && list_before(
            a.drop_first(),
            b.drop_first(),
        ))
    }
}

/// Whether a path comes before another: part by part, and a directory before what it holds.
pub open spec fn comes_before(a: Seq<char>, b: Seq<char>) -> bool {
    list_before(components(a), components(b))
}

proof fn lemma_list_transitive(a: Seq<Seq<char>>, b: Seq<Seq<char>>, c: Seq<Seq<char>>)
    requires
        list_before(a, b),
        list_before(b, c),
    ensures
        list_before(a, c),
    decreases a.len(),
{
    if a.len() > 0 {
        if text::precedes(a[0], b[0]) && text::precedes(b[0], c[0]) {
            text::lemma_precedes_transitive(a[0], b[0], c[0]);
        } else if a[0] == b[0] && b[0] == c[0] && !text::precedes(a[0], b[0]) && !text::precedes(
            b[0],
            c[0],
        ) {
            lemma_list_transitive(a.drop_first(), b.drop_first(), c.drop_first());
        }
    }
}

proof fn lemma_list_total(a: Seq<Seq<char>>, b: Seq<Seq<char>>)
    ensures
        list_before(a, b) || list_before(b, a) || a == b,
        !list_before(a, a),
    decreases a.len(),
{
    if a.len() > 0 {
        text::lemma_precedes_irreflexive(a[0]);
        if b.len() > 0 {
            text::lemma_precedes_total(a[0], b[0]);
            lemma_list_total(a.drop_first(), b.drop_first());
            if a[0] == b[0] && a.drop_first() == b.drop_first() {
                assert(a =~= seq![a[0]] + a.drop_first());
                assert(b =~= seq![b[0]] + b.drop_first());
            }
        } else {
            lemma_list_total(a.drop_first(), b);
        }
    } else {
        assert(b.len() == 0 ==> a =~= b);
    }
}

proof fn lemma_components_identify(a: Seq<char>, b: Seq<char>)
    requires
        components(a) == components(b),
    ensures
        is_same(a, b),
{
    let ca = components(a);
    let cb = components(b);
    let pa = parts(a);
    let pb = parts(b);
    assert(pa.len() > 0 && !rooted(a) ==> ca[0] == marked(pa[0]) && ca[0][0] != '0');
    assert(pb.len() > 0 && !rooted(b) ==> cb[0] == marked(pb[0]) && cb[0][0] != '0');
    assert(rooted(a) ==> ca[0][0] == '0');
    assert(rooted(b) ==> cb[0][0] == '0');
    assert(ca.len() == pa.len() + if rooted(a) { 1int } else { 0 });
    assert(cb.len() == pb.len() + if rooted(b) { 1int } else { 0 });
    assert(rooted(a) == rooted(b));
    assert forall|i: int| 0 <= i < pa.len() implies pa[i] == pb[i] by {
        let k = if rooted(a) { i + 1 } else { i };
        assert(ca[k] == marked(pa[i]));
        assert(cb[k] == marked(pb[i]));
        assert(marked(pa[i])[0] == marked(pb[i])[0]);
        if is_name(pa[i]) {
            assert(marked(pa[i]).skip(1) =~= pa[i]);
            assert(marked(pb[i]).skip(1) =~= pb[i]);
        }
    }
    assert(pa =~= pb);
}

/// Paths are ordered: of two that differ exactly one comes before the other.
pub proof fn law_paths_are_ordered(a: Seq<char>, b: Seq<char>, c: Seq<char>)
    ensures
        is_same(a, b) ==> !comes_before(a, b) && !comes_before(b, a),
        !is_same(a, b) ==> comes_before(a, b) != comes_before(b, a),
        comes_before(a, b) && comes_before(b, c) ==> comes_before(a, c),
{
    lemma_list_total(components(a), components(b));
    if components(a) == components(b) {
        lemma_components_identify(a, b);
    }
    if is_same(a, b) {
        assert(components(a) == components(b));
        lemma_list_total(components(b), components(a));
    }
    if comes_before(a, b) && comes_before(b, a) {
        lemma_list_transitive(components(a), components(b), components(a));
    }
    if comes_before(a, b) && comes_before(b, c) {
        lemma_list_transitive(components(a), components(b), components(c));
    }
}

fn mark(part: &str) -> (r: String)
    ensures
        r@ == marked(part@),
{
    let mut out = String::new();
    if is_dot(part) {
        out.push('1');
        assert(out@ =~= seq!['1']);
    } else if is_dots(part) {
        out.push('2');
        assert(out@ =~= seq!['2']);
    } else {
        out.push('3');
        out.append(part);
        assert(out@ =~= seq!['3'] + part@);
    }
    out
}

fn components_of(s: &str) -> (r: Vec<String>)
    ensures
        text::texts(r@) == components(s@),
{
    let ps = parts_of(s);
    let ghost marks = parts(s@).map_values(|p: Seq<char>| marked(p));
    let mut out: Vec<String> = Vec::new();
    if is_rooted(s) {
        let mut root = String::new();
        root.push('0');
        assert(root@ =~= seq!['0']);
        out.push(root);
    }
    let ghost lead = text::texts(out@);
    assert(lead =~= if rooted(s@) {
        seq![seq!['0']]
    } else {
        Seq::<Seq<char>>::empty()
    });
    let mut i: usize = 0;
    assert(lead + marks.take(0) =~= lead);
    while i < ps.len()
        invariant
            i <= ps.len(),
            text::texts(ps@) == parts(s@),
            text::texts(out@) == lead + marks.take(i as int),
        decreases ps.len() - i,
    {
        let ghost sofar = text::texts(out@);
        assert(parts(s@)[i as int] == ps@[i as int]@);
        let m = mark(ps[i].as_str());
        let ghost mm = m@;
        out.push(m);
        assert(text::texts(out@) =~= sofar.push(mm));
        assert(lead + marks.take(i + 1) =~= (lead + marks.take(i as int)).push(mm));
        i += 1;
    }
    assert(text::texts(ps@).len() == ps.len());
    assert(marks.take(i as int) =~= marks);
    assert(Seq::<Seq<char>>::empty() + marks =~= marks);
    out
}

/// Whether a path comes before another.
pub fn path_before(a: &str, b: &str) -> (r: bool)
    ensures
        r == comes_before(a@, b@),
{
    let xs = components_of(a);
    let ys = components_of(b);
    let ghost x = text::texts(xs@);
    let ghost y = text::texts(ys@);
    let mut i: usize = 0;
    assert(x.skip(0) =~= x && y.skip(0) =~= y);
    while i < xs.len() && i < ys.len()
        invariant
            i <= xs.len(),
            i <= ys.len(),
            x == text::texts(xs@),
            y == text::texts(ys@),
            list_before(x, y) == list_before(x.skip(i as int), y.skip(i as int)),
        decreases xs.len() - i,
    {
        assert(x.skip(i as int)[0] == xs@[i as int]@);
        assert(y.skip(i as int)[0] == ys@[i as int]@);
        if text::before(xs[i].as_str(), ys[i].as_str()) {
            return true;
        }
        if !text::same(xs[i].as_str(), ys[i].as_str()) {
            return false;
        }
        assert(x.skip(i as int).drop_first() =~= x.skip(i + 1));
        assert(y.skip(i as int).drop_first() =~= y.skip(i + 1));
        i += 1;
    }
    assert(x.skip(i as int).len() == xs.len() - i);
    assert(y.skip(i as int).len() == ys.len() - i);
    i < ys.len()
}

// ── What a path is made of ──

/// The parts of a path are its pieces between slashes: neither the empty ones nor a dot, unless it
/// leads.
pub proof fn law_parts_of_a_path(pieces: Seq<Seq<char>>, n: nat)
    ensures
        parts_among(pieces, n) == Seq::new(n, |i: int| i).filter(
            |i: int| pieces[i].len() > 0 && (pieces[i] != seq!['.'] || i == 0),
        ).map_values(
            |i: int| pieces[i],
        ),
    decreases n,
{
    reveal(Seq::filter);
    let all = Seq::new(n, |i: int| i);
    if n > 0 {
        law_parts_of_a_path(pieces, (n - 1) as nat);
        assert(all.drop_last() =~= Seq::new((n - 1) as nat, |i: int| i));
        assert(all.last() == n - 1);
    } else {
        assert(all =~= Seq::<int>::empty());
    }
}

proof fn lemma_parts_are_plain(pieces: Seq<Seq<char>>, n: nat)
    requires
        n <= pieces.len(),
        forall|i: int| 0 <= i < pieces.len() ==> !(#[trigger] pieces[i]).contains('/'),
    ensures
        plain(parts_among(pieces, n)),
        n > 0 && pieces[0].len() == 0 && parts_among(pieces, n).len() > 0 ==> parts_among(
            pieces,
            n,
        )[0] != dot(),
        parts_among(pieces, n).len() <= n,
    decreases n,
{
    if n > 0 {
        lemma_parts_are_plain(pieces, (n - 1) as nat);
    }
}

/// The parts of a path hold no slash, and a dot only in front.
pub proof fn law_parts_are_plain(s: Seq<char>)
    ensures
        plain(parts(s)),
        rooted(s) && parts(s).len() > 0 ==> parts(s)[0] != dot(),
{
    text::lemma_join_split(s, '/');
    lemma_parts_are_plain(text::split(s, '/'), text::split(s, '/').len());
    if rooted(s) {
        let rest = s.drop_first();
        assert(s =~= Seq::<char>::empty() + seq!['/'] + rest);
        text::lemma_split_around(Seq::empty(), rest, '/');
        assert(text::split(Seq::<char>::empty(), '/') =~= seq![Seq::<char>::empty()]);
        assert(text::split(s, '/')[0] =~= Seq::<char>::empty());
    }
}

/// The parent of a path has all its parts but the last, and starts where it does; only a path
/// without parts has none.
pub proof fn law_parent(s: Seq<char>)
    ensures
        parent(s) is None <==> parts(s).len() == 0,
        parts(s).len() > 1 ==> parts(parent(s).unwrap()) == parts(s).drop_last() && rooted(
            parent(s).unwrap(),
        ) == rooted(s),
        parts(s).len() == 1 ==> parent(s) == Some(
            if rooted(s) {
                seq!['/']
            } else {
                Seq::empty()
            },
        ),
{
    law_parts_are_plain(s);
    if parts(s).len() > 1 {
        let ps = parts(s).drop_last();
        assert forall|i: int| 0 <= i < ps.len() implies (#[trigger] ps[i]).len() > 0
            && !ps[i].contains('/') && (ps[i] != dot() || i == 0) by {
            assert(ps[i] == parts(s)[i]);
        }
        law_render_reads_back(rooted(s), ps);
    } else if parts(s).len() == 1 {
        assert(parts(s).drop_last() =~= Seq::empty());
        assert(text::join(Seq::<Seq<char>>::empty(), slash()) =~= Seq::<char>::empty());
        assert(slash() + Seq::<char>::empty() =~= slash());
    }
}

/// The name of a path is its last part, unless that is a step.
pub proof fn law_file_name(s: Seq<char>)
    ensures
        file_name(s) is Some <==> parts(s).len() > 0 && parts(s).last() != seq!['.']
            && parts(s).last() != seq!['.', '.'],
        file_name(s) is Some ==> file_name(s).unwrap() == parts(s).last(),
{
}

/// A rooted path stands for itself from everywhere; another one goes on from where it starts.
pub proof fn law_joined(base: Seq<char>, rel: Seq<char>)
    ensures
        rooted(rel) ==> joined(base, rel) == rel,
        !rooted(rel) ==> base.is_prefix_of(joined(base, rel)) && rel.is_suffix_of(
            joined(base, rel),
        ),
        !rooted(rel) && base.len() > 0 && base.last() != '/' ==> joined(base, rel) == base
            + seq!['/'] + rel,
        !rooted(rel) && (base.len() == 0 || base.last() == '/') ==> joined(base, rel) == base + rel,
{
    if !rooted(rel) {
        let j = joined(base, rel);
        assert(j.subrange(0, base.len() as int) =~= base);
        assert(j.subrange(j.len() - rel.len(), j.len() as int) =~= rel);
    }
}

/// A path lies below another where it starts with all of its parts, and what leads down is the
/// rest.
pub proof fn law_beneath(s: Seq<char>, base: Seq<char>)
    requires
        rooted(s) == rooted(base),
    ensures
        beneath(s, base) is Some <==> parts(base).len() <= parts(s).len() && parts(s).take(
            parts(base).len() as int,
        ) == parts(base),
        beneath(s, base) matches Some(rest) ==> (parts(s).len() == parts(base).len() ==> rest.len()
            == 0),
        beneath(s, base) matches Some(rest) ==> (parts(s).len() > parts(base).len() && parts(
            base,
        ).len() > 0 ==> parts(base) + parts(rest) == parts(s)),
{
    law_parts_are_plain(s);
    if parts(base).len() <= parts(s).len() && parts(s).take(parts(base).len() as int) == parts(
        base,
    ) {
        assert(parts(s).subrange(0, parts(base).len() as int) =~= parts(base));
    }
    if below(s, base) {
        let n = parts(base).len() as int;
        assert(parts(s).take(n) =~= parts(base));
        let ps = parts(s).skip(n);
        if ps.len() > 0 && n > 0 {
            assert forall|i: int| 0 <= i < ps.len() implies (#[trigger] ps[i]).len() > 0
                && !ps[i].contains('/') && (ps[i] != dot() || i == 0) by {
                assert(ps[i] == parts(s)[n + i]);
            }
            law_render_reads_back(false, ps);
            assert(parts(base) + ps =~= parts(s));
        } else {
            if ps.len() == 0 {
                assert(ps =~= Seq::empty());
            }
        }
    }
}

/// Steps are carried out from the left: a name goes down, two dots go back up as far as there is
/// something above, and one dot stays.
pub proof fn law_steps_are_carried_out(ps: Seq<Seq<char>>, name: Seq<char>)
    requires
        name != seq!['.'],
        name != seq!['.', '.'],
    ensures
        folded(ps.push(name)) == folded(ps).push(name),
        folded(ps.push(name).push(seq!['.', '.'])) == folded(ps),
        folded(ps.push(seq!['.'])) == folded(ps),
        folded(seq![seq!['.', '.']]) == Seq::<Seq<char>>::empty(),
        folded(Seq::<Seq<char>>::empty()) == Seq::<Seq<char>>::empty(),
{
    reveal_with_fuel(folded, 3);
    let down = ps.push(name);
    assert(down.drop_last() =~= ps);
    assert(down.push(dots()).drop_last() =~= down);
    assert(ps.push(dot()).drop_last() =~= ps);
    assert(folded(ps).push(name).drop_last() =~= folded(ps));
    assert(seq![dots()].drop_last() =~= Seq::<Seq<char>>::empty());
    assert(dot()[0] == '.' && dots()[0] == '.' && dot().len() == 1 && dots().len() == 2);
}

/// A directory comes before what it holds, and of two entries of one directory the one whose name
/// reads first.
pub proof fn law_order_of_paths(a: Seq<char>, b: Seq<char>, i: int)
    requires
        rooted(a) == rooted(b),
        0 <= i <= parts(a).len(),
        i <= parts(b).len(),
        parts(a).take(i) == parts(b).take(i),
    ensures
        i == parts(a).len() && i < parts(b).len() ==> comes_before(a, b),
        i == parts(b).len() ==> !comes_before(a, b),
        i < parts(a).len() && i < parts(b).len() && is_name(parts(a)[i]) && is_name(parts(b)[i])
            && text::precedes(parts(a)[i], parts(b)[i]) ==> comes_before(a, b),
{
    let lead: int = if rooted(a) {
        1
    } else {
        0
    };
    let ca = components(a);
    let cb = components(b);
    assert(ca.take(lead + i) =~= cb.take(lead + i)) by {
        assert forall|k: int| 0 <= k < lead + i implies ca[k] == cb[k] by {
            if k >= lead {
                assert(parts(a).take(i)[k - lead] == parts(b).take(i)[k - lead]);
            }
        }
    }
    if i < parts(a).len() && i < parts(b).len() && is_name(parts(a)[i]) && is_name(parts(b)[i])
        && text::precedes(parts(a)[i], parts(b)[i]) {
        let x = seq!['3'] + parts(a)[i];
        let y = seq!['3'] + parts(b)[i];
        assert(x.drop_first() =~= parts(a)[i]);
        assert(y.drop_first() =~= parts(b)[i]);
        assert(text::precedes(x, y));
        assert(ca[lead + i] == x && cb[lead + i] == y);
    }
    lemma_list_before_at(ca, cb, lead + i);
}

proof fn lemma_list_before_at(a: Seq<Seq<char>>, b: Seq<Seq<char>>, i: int)
    requires
        0 <= i <= a.len(),
        i <= b.len(),
        a.take(i) == b.take(i),
    ensures
        i == a.len() && i < b.len() ==> list_before(a, b),
        i == b.len() ==> !list_before(a, b),
        i < a.len() && i < b.len() && text::precedes(a[i], b[i]) ==> list_before(a, b),
    decreases a.len(),
{
    if i > 0 {
        assert(a.take(i)[0] == a[0] && b.take(i)[0] == b[0]);
        let c = a.drop_first();
        let d = b.drop_first();
        assert(c.take(i - 1) =~= a.take(i).drop_first());
        assert(d.take(i - 1) =~= b.take(i).drop_first());
        lemma_list_before_at(c, d, i - 1);
        text::lemma_precedes_irreflexive(a[0]);
        if i < a.len() {
            assert(c[i - 1] == a[i]);
        }
        if i < b.len() {
            assert(d[i - 1] == b[i]);
        }
    }
}

} // verus!
