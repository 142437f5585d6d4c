//! Wildcard patterns.

use vstd::prelude::*;
use vstd::string::*;

use crate::text;

verus! {

pub open spec fn star() -> Seq<char> {
    seq!['*']
}

/// Whether a name matches a pattern with a star at one end or, with text around it, in the
/// middle; a second star stands for itself.
pub open spec fn matches_star(pattern: Seq<char>, name: Seq<char>) -> bool {
    if pattern == star() {
        true
    } else if star().is_prefix_of(pattern) {
        pattern.skip(1).is_suffix_of(name)
    } else if star().is_suffix_of(pattern) {
        pattern.drop_last().is_prefix_of(name)
    } else if pattern.contains('*') && text::split(pattern, '*').len() == 2 {
        text::split(pattern, '*')[0].is_prefix_of(name) && text::split(
            pattern,
            '*',
        )[1].is_suffix_of(name)
    } else {
        pattern == name
    }
}

/// Whether a value matches a pattern with a star at one end.
pub open spec fn matches_end_star(pattern: Seq<char>, value: Seq<char>) -> bool {
    if pattern == star() {
        true
    } else if star().is_prefix_of(pattern) {
        pattern.skip(1).is_suffix_of(value)
    } else if star().is_suffix_of(pattern) {
        pattern.drop_last().is_prefix_of(value)
    } else {
        pattern == value
    }
}

/// Whether a value matches a pattern with a star at one end; of two the last one counts.
pub open spec fn matches_tail_star(pattern: Seq<char>, value: Seq<char>) -> bool {
    if pattern == star() {
        true
    } else if star().is_suffix_of(pattern) {
        pattern.drop_last().is_prefix_of(value)
    } else if star().is_prefix_of(pattern) {
        pattern.skip(1).is_suffix_of(value)
    } else {
        pattern == value
    }
}

/// Whether one of the patterns matches the value.
pub open spec fn matches_any(patterns: Seq<String>, value: Seq<char>) -> bool {
    exists|i: int| 0 <= i < patterns.len() && matches_end_star((#[trigger] patterns[i])@, value)
}

/// Whether a name matches a pattern in which `*` stands for any text and `?` for any one
/// character.
pub open spec fn matches_glob(pattern: Seq<char>, name: Seq<char>) -> bool
    decreases pattern.len(), name.len(),
{
    if pattern.len() == 0 {
        name.len() == 0
    } else if pattern[0] == '*' {
        matches_glob(pattern.drop_first(), name) || (name.len() > 0 && matches_glob(
            pattern,
            name.drop_first(),
        ))
    } else {
        name.len() > 0 && (pattern[0] == '?' || pattern[0] == name[0]) && matches_glob(
            pattern.drop_first(),
            name.drop_first(),
        )
    }
}

proof fn reveal_star()
    ensures
        "*"@ == star(),
{
    reveal_strlit("*");
    assert("*"@ =~= star());
}

/// Simple glob matching: `*` alone, at one end, or once in the middle.
pub fn glob_match(pattern: &str, name: &str) -> (r: bool)
    ensures
        r == matches_star(pattern@, name@),
{
    proof {
        reveal_star();
    }
    if text::same(pattern, "*") {
        return true;
    }
    if let Some(suffix) = text::strip_lead(pattern, "*") {
        assert(suffix@ =~= pattern@.skip(1));
        return text::ends_with(name, suffix.as_str());
    }
    if let Some(prefix) = text::strip_end(pattern, "*") {
        assert(prefix@ =~= pattern@.drop_last());
        return text::leads_with(name, prefix.as_str());
    }
    if text::contains_char(pattern, '*') {
        let parts = text::split_on(pattern, '*');
        assert(text::texts(parts@).len() == parts.len());
        if parts.len() == 2 {
            assert(text::texts(parts@)[0] == parts@[0]@);
            assert(text::texts(parts@)[1] == parts@[1]@);
            return text::leads_with(name, parts[0].as_str()) && text::ends_with(
                name,
                parts[1].as_str(),
            );
        }
    }
    text::same(pattern, name)
}

/// Simple glob matching: `*` alone or at one end.
pub fn end_glob_match(pattern: &str, value: &str) -> (r: bool)
    ensures
        r == matches_end_star(pattern@, value@),
{
    proof {
        reveal_star();
    }
    if text::same(pattern, "*") {
        return true;
    }
    if let Some(suffix) = text::strip_lead(pattern, "*") {
        assert(suffix@ =~= pattern@.skip(1));
        return text::ends_with(value, suffix.as_str());
    }
    if let Some(prefix) = text::strip_end(pattern, "*") {
        assert(prefix@ =~= pattern@.drop_last());
        return text::leads_with(value, prefix.as_str());
    }
    text::same(pattern, value)
}

/// Simple glob matching: `*` alone or at one end, the last one first.
pub fn tail_glob_match(pattern: &str, value: &str) -> (r: bool)
    ensures
        r == matches_tail_star(pattern@, value@),
{
    proof {
        reveal_star();
    }
    if text::same(pattern, "*") {
        return true;
    }
    if let Some(prefix) = text::strip_end(pattern, "*") {
        assert(prefix@ =~= pattern@.drop_last());
        return text::leads_with(value, prefix.as_str());
    }
    if let Some(suffix) = text::strip_lead(pattern, "*") {
        assert(suffix@ =~= pattern@.skip(1));
        return text::ends_with(value, suffix.as_str());
    }
    text::same(pattern, value)
}

/// Check if any pattern in the list matches the value (simple glob)
pub fn glob_list_match(patterns: &Vec<String>, value: &str) -> (r: bool)
    ensures
        r == matches_any(patterns@, value@),
{
    let mut i: usize = 0;
    while i < patterns.len()
        invariant
            i <= patterns.len(),
            forall|j: int|
                0 <= j < i ==> !matches_end_star((#[trigger] patterns@[j])@, value@),
        decreases patterns.len() - i,
    {
        if end_glob_match(patterns[i].as_str(), value) {
            return true;
        }
        i += 1;
    }
    false
}

fn glob_from(p: &Vec<char>, i: usize, n: &Vec<char>, j: usize) -> (r: bool)
    requires
        i <= p.len(),
        j <= n.len(),
    ensures
        r == matches_glob(p@.skip(i as int), n@.skip(j as int)),
    decreases p.len() - i, n.len() - j,
{
    let ghost ps = p@.skip(i as int);
    let ghost ns = n@.skip(j as int);
    if i == p.len() {
        return j == n.len();
    }
    assert(ps.drop_first() =~= p@.skip(i + 1));
    assert(ps[0] == p@[i as int]);
    if j < n.len() {
        assert(ns.drop_first() =~= n@.skip(j + 1));
        assert(ns[0] == n@[j as int]);
    }
    if p[i] == '*' {
        glob_from(p, i + 1, n, j) || (j < n.len() && glob_from(p, i, n, j + 1))
    } else {
        j < n.len() && (p[i] == '?' || p[i] == n[j]) && glob_from(p, i + 1, n, j + 1)
    }
}

/// Glob matching that supports `*` and `?`.
pub fn full_glob_match(pattern: &str, name: &str) -> (r: bool)
    ensures
        r == matches_glob(pattern@, name@),
{
    let p = text::chars_of(pattern);
    let n = text::chars_of(name);
    assert(p@.skip(0) =~= p@);
    assert(n@.skip(0) =~= n@);
    glob_from(&p, 0, &n, 0)
}

// ── Laws ──

/// A pattern without wildcards matches itself and nothing else.
pub proof fn law_plain_pattern(pattern: Seq<char>, name: Seq<char>)
    requires
        !pattern.contains('*'),
        !pattern.contains('?'),
    ensures
        matches_glob(pattern, name) == (pattern == name),
        matches_star(pattern, name) == (pattern == name),
        matches_end_star(pattern, name) == (pattern == name),
        matches_tail_star(pattern, name) == (pattern == name),
{
    lemma_plain_glob(pattern, name);
    if star().is_prefix_of(pattern) {
        assert(pattern.subrange(0, 1)[0] == star()[0]);
        assert(pattern[0] == '*');
    }
    if star().is_suffix_of(pattern) {
        let n = pattern.len();
        assert(pattern.subrange(n - 1, n as int)[0] == star()[0]);
        assert(pattern[n - 1] == '*');
    }
    if pattern == star() {
        assert(pattern[0] == '*');
    }
}

proof fn lemma_plain_glob(pattern: Seq<char>, name: Seq<char>)
    requires
        !pattern.contains('*'),
        !pattern.contains('?'),
    ensures
        matches_glob(pattern, name) == (pattern == name),
    decreases pattern.len(),
{
    if pattern.len() == 0 {
        if name.len() == 0 {
            assert(pattern =~= name);
        }
    } else {
        assert(pattern[0] != '*' && pattern[0] != '?') by {
            assert(pattern.contains(pattern[0]));
        }
        if name.len() > 0 {
            let (p, n) = (pattern.drop_first(), name.drop_first());
            assert forall|c: char| p.contains(c) implies pattern.contains(c) by {
                let i = p.index_of(c);
                assert(pattern[i + 1] == c);
            }
            lemma_plain_glob(p, n);
            assert(pattern =~= seq![pattern[0]] + p);
            assert(name =~= seq![name[0]] + n);
        }
    }
}

/// A lone star matches everything.
pub proof fn law_star_matches_all(name: Seq<char>)
    ensures
        matches_glob(star(), name),
        matches_star(star(), name),
        matches_end_star(star(), name),
        matches_tail_star(star(), name),
    decreases name.len(),
{
    reveal_with_fuel(matches_glob, 2);
    assert(star().drop_first() =~= Seq::<char>::empty());
    if name.len() > 0 {
        law_star_matches_all(name.drop_first());
    }
}

/// A star behind a text stands for any end, and a star before a text for any start.
pub proof fn law_star_at_an_end(part: Seq<char>, name: Seq<char>)
    requires
        !part.contains('*'),
        part.len() > 0,
    ensures
        matches_star(part.push('*'), name) <==> part.is_prefix_of(name),
        matches_end_star(part.push('*'), name) <==> part.is_prefix_of(name),
        matches_tail_star(part.push('*'), name) <==> part.is_prefix_of(name),
        matches_star(seq!['*'] + part, name) <==> part.is_suffix_of(name),
        matches_end_star(seq!['*'] + part, name) <==> part.is_suffix_of(name),
        matches_tail_star(seq!['*'] + part, name) <==> part.is_suffix_of(name),
{
    let behind = part.push('*');
    let before = seq!['*'] + part;
    assert(part.contains(part[0]) && part.contains(part.last()));
    assert(behind[0] == part[0]);
    assert(behind.drop_last() =~= part);
    assert(before.skip(1) =~= part);
    assert(star()[0] == '*');
    assert(!star().is_prefix_of(behind)) by {
        if star().is_prefix_of(behind) {
            assert(behind.subrange(0, 1)[0] == '*');
        }
    }
    assert(star().is_suffix_of(behind)) by {
        assert(behind.subrange(behind.len() - 1, behind.len() as int) =~= star());
    }
    assert(star().is_prefix_of(before)) by {
        assert(before.subrange(0, 1) =~= star());
    }
    assert(!star().is_suffix_of(before)) by {
        if star().is_suffix_of(before) {
            assert(before.subrange(before.len() - 1, before.len() as int)[0] == '*');
            assert(before.last() == part.last());
        }
    }
    assert(behind.len() > 1 && before.len() > 1);
}

/// A pattern made of two matches exactly the names made of what each of them matches.
pub proof fn law_globs_join(p: Seq<char>, q: Seq<char>, name: Seq<char>)
    ensures
        matches_glob(p + q, name) <==> exists|k: int|
            0 <= k <= name.len() && #[trigger] matches_glob(p, name.take(k)) && matches_glob(
                q,
                name.skip(k),
            ),
    decreases p.len(), name.len(),
{
    let pq = p + q;
    if p.len() == 0 {
        assert(pq =~= q);
        assert(name.skip(0) =~= name);
        assert(matches_glob(p, name.take(0)));
        assert forall|k: int| 0 <= k <= name.len() && #[trigger] matches_glob(p, name.take(k))
            implies k == 0 by {}
    } else {
        assert(pq.drop_first() =~= p.drop_first() + q);
        assert(pq[0] == p[0]);
        if p[0] == '*' {
            law_globs_join(p.drop_first(), q, name);
            if name.len() > 0 {
                law_globs_join(p, q, name.drop_first());
            }
            if matches_glob(pq, name) {
                if matches_glob(p.drop_first() + q, name) {
                    let k = choose|k: int|
                        0 <= k <= name.len() && #[trigger] matches_glob(
                            p.drop_first(),
                            name.take(k),
                        ) && matches_glob(q, name.skip(k));
                    assert(matches_glob(p, name.take(k)));
                } else {
                    let rest = name.drop_first();
                    let k = choose|k: int|
                        0 <= k <= rest.len() && #[trigger] matches_glob(p, rest.take(k))
                            && matches_glob(q, rest.skip(k));
                    assert(name.take(k + 1).drop_first() =~= rest.take(k));
                    assert(name.skip(k + 1) =~= rest.skip(k));
                    assert(matches_glob(p, name.take(k + 1)));
                }
            }
            assert forall|k: int|
                0 <= k <= name.len() && #[trigger] matches_glob(p, name.take(k)) && matches_glob(
                    q,
                    name.skip(k),
                ) implies matches_glob(pq, name) by {
                let t = name.take(k);
                if matches_glob(p.drop_first(), t) {
                    assert(matches_glob(p.drop_first() + q, name));
                } else {
                    let rest = name.drop_first();
                    assert(t.drop_first() =~= rest.take(k - 1));
                    assert(rest.skip(k - 1) =~= name.skip(k));
                    assert(matches_glob(p, rest.take(k - 1)));
                    assert(matches_glob(pq, rest));
                }
            }
        } else {
            if name.len() > 0 {
                let rest = name.drop_first();
                law_globs_join(p.drop_first(), q, rest);
                if matches_glob(pq, name) {
                    let k = choose|k: int|
                        0 <= k <= rest.len() && #[trigger] matches_glob(
                            p.drop_first(),
                            rest.take(k),
                        ) && matches_glob(q, rest.skip(k));
                    assert(name.take(k + 1).drop_first() =~= rest.take(k));
                    assert(name.skip(k + 1) =~= rest.skip(k));
                    assert(matches_glob(p, name.take(k + 1)));
                }
                assert forall|k: int|
                    0 <= k <= name.len() && #[trigger] matches_glob(p, name.take(k))
                        && matches_glob(q, name.skip(k)) implies matches_glob(pq, name) by {
                    let t = name.take(k);
                    assert(t.drop_first() =~= rest.take(k - 1));
                    assert(rest.skip(k - 1) =~= name.skip(k));
                    assert(matches_glob(p.drop_first(), rest.take(k - 1)));
                }
            }
        }
    }
}

/// A question mark stands for exactly one character, whichever it is.
pub proof fn law_question_mark(name: Seq<char>)
    ensures
        matches_glob(seq!['?'], name) <==> name.len() == 1,
{
    reveal_with_fuel(matches_glob, 3);
    assert(seq!['?'].drop_first() =~= Seq::<char>::empty());
}

/// A list of patterns matches as soon as one of them does.
pub proof fn law_one_pattern_is_enough(patterns: Seq<String>, value: Seq<char>, i: int)
    ensures
        0 <= i < patterns.len() && matches_end_star(patterns[i]@, value) ==> matches_any(
            patterns,
            value,
        ),
        patterns.len() == 0 ==> !matches_any(patterns, value),
        matches_any(patterns, value) ==> exists|k: int|
            0 <= k < patterns.len() && matches_end_star((#[trigger] patterns[k])@, value),
{
}

} // verus!
