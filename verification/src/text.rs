//! Text primitives, stated over the sequence of characters of a string.

use vstd::prelude::*;
use vstd::string::*;

verus! {

/// `String::push` appends one character.
pub assume_specification[ String::push ](s: &mut String, c: char)
    ensures
        final(s)@ == old(s)@.push(c),
;

// ── Vocabulary ──

/// The contents of a list of strings.
pub open spec fn texts(v: Seq<String>) -> Seq<Seq<char>> {
    v.map_values(|s: String| s@)
}

/// The contents of a list of pairs of strings.
pub open spec fn pairs(v: Seq<(String, String)>) -> Seq<(Seq<char>, Seq<char>)> {
    v.map_values(|p: (String, String)| (p.0@, p.1@))
}

/// The contents of a string that may be missing.
pub open spec fn opt(s: Option<String>) -> Option<Seq<char>> {
    match s {
        Some(t) => Some(t@),
        None => None,
    }
}

/// Whether a list of strings holds the text `t`.
pub open spec fn lists(v: Seq<String>, t: Seq<char>) -> bool {
    exists|i: int| 0 <= i < v.len() && (#[trigger] v[i])@ == t
}

/// Whether `p` stands in `s` at position `i`.
pub open spec fn occurs_at(s: Seq<char>, p: Seq<char>, i: int) -> bool {
    0 <= i <= s.len() - p.len() && s.subrange(i, i + p.len()) == p
}

/// Whether `p` is part of `s`.
pub open spec fn occurs(s: Seq<char>, p: Seq<char>) -> bool {
    exists|i: int| occurs_at(s, p, i)
}

/// What is left of `s` once the leading `p` is gone, if it leads with `p`.
pub open spec fn after_prefix(s: Seq<char>, p: Seq<char>) -> Option<Seq<char>> {
    if p.is_prefix_of(s) {
        Some(s.skip(p.len() as int))
    } else {
        None
    }
}

/// What is left of `s` once the trailing `p` is gone, if it ends with `p`.
pub open spec fn before_suffix(s: Seq<char>, p: Seq<char>) -> Option<Seq<char>> {
    if p.is_suffix_of(s) {
        Some(s.take(s.len() - p.len()))
    } else {
        None
    }
}

/// The pieces of `s` between the separators `c`; never empty.
pub open spec fn split(s: Seq<char>, c: char) -> Seq<Seq<char>>
    decreases s.len(),
{
    if s.len() == 0 {
        seq![Seq::<char>::empty()]
    } else {
        let t = split(s.drop_last(), c);
        if s.last() == c {
            t.push(Seq::<char>::empty())
        } else {
            t.drop_last().push(t.last().push(s.last()))
        }
    }
}

/// The pieces put one after the other with `sep` between them.
pub open spec fn join(parts: Seq<Seq<char>>, sep: Seq<char>) -> Seq<char>
    decreases parts.len(),
{
    if parts.len() == 0 {
        Seq::empty()
    } else if parts.len() == 1 {
        parts[0]
    } else {
        join(parts.drop_last(), sep) + sep + parts.last()
    }
}

/// A line that a line feed ends, without a carriage return before that feed.
pub open spec fn without_return(line: Seq<char>) -> Seq<char> {
    if line.len() > 0 && line.last() == '\r' {
        line.drop_last()
    } else {
        line
    }
}

/// The lines of `s`: the last one need not be ended by a line feed.
pub open spec fn lines(s: Seq<char>) -> Seq<Seq<char>> {
    let pieces = split(s, '\n');
    let ended = pieces.drop_last().map_values(|l: Seq<char>| without_return(l));
    if pieces.last().len() == 0 {
        ended
    } else {
        ended.push(pieces.last())
    }
}

/// The characters with the Unicode property White_Space.
pub open spec fn is_space(c: char) -> bool {
    let n = c as int;
    ||| 9 <= n <= 13
    ||| n == 0x20
    ||| n == 0x85
    ||| n == 0xA0
    ||| n == 0x1680
    ||| 0x2000 <= n <= 0x200A
    ||| n == 0x2028
    ||| n == 0x2029
    ||| n == 0x202F
    ||| n == 0x205F
    ||| n == 0x3000
}

/// `s` without its leading white space.
pub open spec fn trim_start(s: Seq<char>) -> Seq<char>
    decreases s.len(),
{
    if s.len() > 0 && is_space(s[0]) {
        trim_start(s.drop_first())
    } else {
        s
    }
}

/// `s` without its trailing white space.
pub open spec fn trim_end(s: Seq<char>) -> Seq<char>
    decreases s.len(),
{
    if s.len() > 0 && is_space(s.last()) {
        trim_end(s.drop_last())
    } else {
        s
    }
}

/// `s` without the white space around it.
pub open spec fn trim(s: Seq<char>) -> Seq<char> {
    trim_end(trim_start(s))
}

/// How many leading characters of `s` are not white space.
pub open spec fn word_len(s: Seq<char>) -> nat
    decreases s.len(),
{
    if s.len() > 0 && !is_space(s[0]) {
        1 + word_len(s.drop_first())
    } else {
        0
    }
}

/// The longest start of `s` that holds no white space.
pub open spec fn leading_word(s: Seq<char>) -> Seq<char> {
    s.take(word_len(s) as int)
}

/// `s` with each occurrence of the non-empty `from`, taken from the left, turned into `to`.
pub open spec fn replaced(s: Seq<char>, from: Seq<char>, to: Seq<char>) -> Seq<char>
    decreases s.len(),
{
    if from.len() > 0 && from.is_prefix_of(s) {
        to + replaced(s.skip(from.len() as int), from, to)
    } else if s.len() == 0 {
        s
    } else {
        seq![s[0]] + replaced(s.drop_first(), from, to)
    }
}

/// The place of the first occurrence of `p` at or after `i`.
pub open spec fn first_at(s: Seq<char>, p: Seq<char>, i: int) -> Option<int>
    decreases s.len() + 1 - i,
{
    if i < 0 || i > s.len() {
        None
    } else if occurs_at(s, p, i) {
        Some(i)
    } else {
        first_at(s, p, i + 1)
    }
}

/// The pieces of `s` between the occurrences of the non-empty `p`, taken from the left.
pub open spec fn split_text(s: Seq<char>, p: Seq<char>) -> Seq<Seq<char>>
    decreases s.len(),
{
    match first_at(s, p, 0) {
        Some(i) => if p.len() > 0 && 0 <= i && i + p.len() <= s.len() {
            seq![s.take(i)] + split_text(s.skip(i + p.len()), p)
        } else {
            seq![s]
        },
        None => seq![s],
    }
}

/// The piece of `s` between the first and the second occurrence of `p`.
pub open spec fn after_first(s: Seq<char>, p: Seq<char>) -> Option<Seq<char>> {
    if split_text(s, p).len() > 1 {
        Some(split_text(s, p)[1])
    } else {
        None
    }
}

/// How many leading characters of `s` are neither `a` nor `b`.
pub open spec fn run_before(s: Seq<char>, a: char, b: char) -> nat
    decreases s.len(),
{
    if s.len() > 0 && s[0] != a && s[0] != b {
        1 + run_before(s.drop_first(), a, b)
    } else {
        0
    }
}

/// `s` up to the first `a` or `b`.
pub open spec fn upto(s: Seq<char>, a: char, b: char) -> Seq<char> {
    s.take(run_before(s, a, b) as int)
}

/// What stands before and behind the first `c`.
pub open spec fn cut(s: Seq<char>, c: char) -> Option<(Seq<char>, Seq<char>)> {
    if run_before(s, c, c) < s.len() {
        Some((upto(s, c, c), s.skip(run_before(s, c, c) as int + 1)))
    } else {
        None
    }
}

/// `s` without any number of trailing `p`.
pub open spec fn without_ends(s: Seq<char>, p: Seq<char>) -> Seq<char>
    decreases s.len(),
{
    if p.len() > 0 && p.is_suffix_of(s) {
        without_ends(s.take(s.len() - p.len()), p)
    } else {
        s
    }
}

/// The digit that stands for `d`.
pub open spec fn digit(d: nat) -> char {
    (('0' as int) + d) as char
}

/// `n` in decimal.
pub open spec fn decimal(n: nat) -> Seq<char>
    decreases n,
{
    if n < 10 {
        seq![digit(n)]
    } else {
        decimal(n / 10).push(digit(n % 10))
    }
}

pub open spec fn is_digit(c: char) -> bool {
    '0' as int <= c as int <= '9' as int
}

/// The number that a run of digits stands for.
pub open spec fn digits_value(s: Seq<char>) -> nat
    decreases s.len(),
{
    if s.len() == 0 {
        0
    } else {
        (10 * digits_value(s.drop_last()) + (s.last() as int - '0' as int)) as nat
    }
}

pub open spec fn all_digits(s: Seq<char>) -> bool {
    s.len() > 0 && forall|i: int| 0 <= i < s.len() ==> is_digit(#[trigger] s[i])
}

/// `s` without one leading plus sign.
pub open spec fn unsigned_part(s: Seq<char>) -> Seq<char> {
    if s.len() > 0 && s[0] == '+' {
        s.drop_first()
    } else {
        s
    }
}

/// The unsigned number that `s` writes down, if it is at most `limit`.
pub open spec fn parsed_number(s: Seq<char>, limit: nat) -> Option<nat> {
    if all_digits(unsigned_part(s)) && digits_value(unsigned_part(s)) <= limit {
        Some(digits_value(unsigned_part(s)))
    } else {
        None
    }
}

/// Whether `a` stands before `b` in lexicographic order.
pub open spec fn precedes(a: Seq<char>, b: Seq<char>) -> bool
    decreases a.len(),
{
    if b.len() == 0 {
        false
    } else if a.len() == 0 {
        true
    } else if a[0] != b[0] {
        (a[0] as int) < (b[0] as int)
    } else {
        precedes(a.drop_first(), b.drop_first())
    }
}

/// Whether the texts stand in lexicographic order, each one once.
pub open spec fn strictly_ordered(s: Seq<Seq<char>>) -> bool {
    forall|i: int, j: int| 0 <= i < j < s.len() ==> precedes(#[trigger] s[i], #[trigger] s[j])
}

// ── Lemmas ──

pub broadcast proof fn lemma_texts_push(v: Seq<String>, s: String)
    ensures
        #[trigger] texts(v.push(s)) == texts(v).push(s@),
{
    assert(texts(v.push(s)) =~= texts(v).push(s@));
}

pub broadcast proof fn lemma_pairs_push(v: Seq<(String, String)>, p: (String, String))
    ensures
        #[trigger] pairs(v.push(p)) == pairs(v).push((p.0@, p.1@)),
{
    assert(pairs(v.push(p)) =~= pairs(v).push((p.0@, p.1@)));
}

/// Whether a list of strings holds a text can be told from its contents.
pub proof fn lemma_lists_texts(v: Seq<String>, t: Seq<char>)
    ensures
        lists(v, t) == texts(v).contains(t),
{
    if lists(v, t) {
        let i = choose|i: int| 0 <= i < v.len() && (#[trigger] v[i])@ == t;
        assert(texts(v)[i] == t);
    }
    if texts(v).contains(t) {
        let i = texts(v).index_of(t);
        assert(v[i]@ == t);
    }
}

pub proof fn lemma_precedes_irreflexive(a: Seq<char>)
    ensures
        !precedes(a, a),
    decreases a.len(),
{
    if a.len() > 0 {
        lemma_precedes_irreflexive(a.drop_first());
    }
}

pub proof fn lemma_precedes_transitive(a: Seq<char>, b: Seq<char>, c: Seq<char>)
    requires
        precedes(a, b),
        precedes(b, c),
    ensures
        precedes(a, c),
    decreases a.len(),
{
    if a.len() > 0 && a[0] == b[0] && b[0] == c[0] {
        lemma_precedes_transitive(a.drop_first(), b.drop_first(), c.drop_first());
    }
}

pub proof fn lemma_precedes_total(a: Seq<char>, b: Seq<char>)
    ensures
        precedes(a, b) || precedes(b, a) || a == b,
        !(precedes(a, b) && precedes(b, a)),
    decreases a.len(),
{
    if a.len() > 0 && b.len() > 0 {
        if a[0] == b[0] {
            lemma_precedes_total(a.drop_first(), b.drop_first());
            if a.drop_first() == b.drop_first() {
                assert(a =~= seq![a[0]] + a.drop_first());
                assert(b =~= seq![b[0]] + b.drop_first());
            }
        }
    } else if a.len() == 0 && b.len() == 0 {
        assert(a =~= b);
    }
}

/// The pieces of a text never number zero.
pub proof fn lemma_split_nonempty(s: Seq<char>, c: char)
    ensures
        split(s, c).len() > 0,
    decreases s.len(),
{
    if s.len() > 0 {
        lemma_split_nonempty(s.drop_last(), c);
    }
}

/// Cutting a text at a separator cuts the two sides apart.
pub proof fn lemma_split_around(a: Seq<char>, b: Seq<char>, c: char)
    ensures
        split(a + seq![c] + b, c) == split(a, c) + split(b, c),
    decreases b.len(),
{
    let whole = a + seq![c] + b;
    lemma_split_nonempty(b, c);
    if b.len() == 0 {
        assert(whole =~= a.push(c));
        assert(whole.drop_last() =~= a);
        assert(split(whole, c) =~= split(a, c) + split(b, c));
    } else {
        lemma_split_around(a, b.drop_last(), c);
        lemma_split_nonempty(b.drop_last(), c);
        assert(whole.drop_last() =~= a + seq![c] + b.drop_last());
        let t = split(b.drop_last(), c);
        let w = split(a, c) + t;
        assert(w.last() == t.last());
        assert(w.drop_last() =~= split(a, c) + t.drop_last());
        assert(split(whole, c) =~= split(a, c) + split(b, c));
    }
}

/// A text without the separator is one piece.
pub proof fn lemma_split_whole(s: Seq<char>, c: char)
    requires
        !s.contains(c),
    ensures
        split(s, c) == seq![s],
    decreases s.len(),
{
    if s.len() > 0 {
        assert(!s.drop_last().contains(c)) by {
            if s.drop_last().contains(c) {
                let i = s.drop_last().index_of(c);
                assert(s[i] == c);
            }
        }
        assert(s[s.len() - 1] != c);
        lemma_split_whole(s.drop_last(), c);
        assert(s.drop_last().push(s.last()) =~= s);
        assert(split(s, c) =~= seq![s]);
    } else {
        assert(s =~= Seq::<char>::empty());
    }
}

/// Cutting undoes joining.
pub proof fn lemma_split_join(parts: Seq<Seq<char>>, c: char)
    requires
        parts.len() > 0,
        forall|i: int| 0 <= i < parts.len() ==> !(#[trigger] parts[i]).contains(c),
    ensures
        split(join(parts, seq![c]), c) == parts,
    decreases parts.len(),
{
    if parts.len() == 1 {
        lemma_split_whole(parts[0], c);
        assert(parts =~= seq![parts[0]]);
    } else {
        let init = parts.drop_last();
        assert forall|i: int| 0 <= i < init.len() implies !(#[trigger] init[i]).contains(c) by {
            assert(init[i] == parts[i]);
        }
        lemma_split_join(init, c);
        lemma_split_around(join(init, seq![c]), parts.last(), c);
        assert(parts[parts.len() - 1] == parts.last());
        lemma_split_whole(parts.last(), c);
        assert(parts =~= init + seq![parts.last()]);
    }
}

/// Joining undoes cutting, and no piece holds the separator.
pub proof fn lemma_join_split(s: Seq<char>, c: char)
    ensures
        join(split(s, c), seq![c]) == s,
        forall|i: int| 0 <= i < split(s, c).len() ==> !(#[trigger] split(s, c)[i]).contains(c),
    decreases s.len(),
{
    if s.len() == 0 {
        assert(split(s, c)[0] =~= s);
    } else {
        let t = split(s.drop_last(), c);
        lemma_join_split(s.drop_last(), c);
        lemma_split_nonempty(s.drop_last(), c);
        assert(s =~= s.drop_last().push(s.last()));
        if s.last() == c {
            let u = t.push(Seq::<char>::empty());
            assert(u.drop_last() =~= t);
            assert(join(u, seq![c]) =~= s);
            assert forall|i: int| 0 <= i < u.len() implies !(#[trigger] u[i]).contains(c) by {
                if i < t.len() {
                    assert(u[i] == t[i]);
                }
            }
        } else {
            let last = t.last().push(s.last());
            let u = t.drop_last().push(last);
            assert(u.drop_last() =~= t.drop_last());
            assert(join(u, seq![c]) =~= s) by {
                if t.len() > 1 {
                    assert(join(t, seq![c]) == join(t.drop_last(), seq![c]) + seq![c] + t.last());
                }
            }
            assert forall|i: int| 0 <= i < u.len() implies !(#[trigger] u[i]).contains(c) by {
                if i < t.len() - 1 {
                    assert(u[i] == t[i]);
                } else {
                    assert(!t[t.len() - 1].contains(c));
                    if u[i].contains(c) {
                        let k = u[i].index_of(c);
                        assert(k < t.last().len());
                        assert(t.last()[k] == c);
                    }
                }
            }
        }
    }
}

// ── Executable primitives ──

/// The characters of `s`, in order.
pub fn chars_of(s: &str) -> (r: Vec<char>)
    ensures
        r@ == s@,
{
    let mut out: Vec<char> = Vec::new();
    for c in it: s.chars()
        invariant
            out@ == it.seq().take(it.index() as int),
            it.seq() == s@,
    {
        out.push(c);
    }
    out
}

/// The text made of `cs[from..to]`.
pub fn slice_text(cs: &Vec<char>, from: usize, to: usize) -> (r: String)
    requires
        from <= to <= cs.len(),
    ensures
        r@ == cs@.subrange(from as int, to as int),
{
    let mut out = String::new();
    let mut i: usize = from;
    while i < to
        invariant
            from <= i <= to <= cs.len(),
            out@ == cs@.subrange(from as int, i as int),
        decreases to - i,
    {
        out.push(cs[i]);
        i += 1;
    }
    out
}

/// Whether `p` stands in `s` at position `at`.
pub fn stands_at(s: &Vec<char>, p: &Vec<char>, at: usize) -> (r: bool)
    ensures
        r == occurs_at(s@, p@, at as int),
{
    if p.len() > s.len() || at > s.len() - p.len() {
        return false;
    }
    let mut i: usize = 0;
    while i < p.len()
        invariant
            at + p.len() <= s.len(),
            i <= p.len(),
            forall|j: int| 0 <= j < i ==> s@[at + j] == p@[j],
        decreases p.len() - i,
    {
        if s[at + i] != p[i] {
            assert(s@.subrange(at as int, at + p.len())[i as int] != p@[i as int]);
            return false;
        }
        i += 1;
    }
    assert(s@.subrange(at as int, at + p.len()) =~= p@);
    true
}

/// Whether two texts are the same.
pub fn same(a: &str, b: &str) -> (r: bool)
    ensures
        r == (a@ == b@),
{
    let x = chars_of(a);
    let y = chars_of(b);
    if x.len() != y.len() {
        return false;
    }
    let r = stands_at(&x, &y, 0);
    assert(x@.subrange(0, x@.len() as int) =~= x@);
    r
}

/// Whether `s` leads with `p`.
pub fn leads_with(s: &str, p: &str) -> (r: bool)
    ensures
        r == p@.is_prefix_of(s@),
{
    let x = chars_of(s);
    let y = chars_of(p);
    stands_at(&x, &y, 0)
}

/// Whether `s` ends with `p`.
pub fn ends_with(s: &str, p: &str) -> (r: bool)
    ensures
        r == p@.is_suffix_of(s@),
{
    let x = chars_of(s);
    let y = chars_of(p);
    if y.len() > x.len() {
        return false;
    }
    stands_at(&x, &y, x.len() - y.len())
}

/// `s` without its leading `p`, if it leads with `p`.
pub fn strip_lead(s: &str, p: &str) -> (r: Option<String>)
    ensures
        match r {
            Some(t) => after_prefix(s@, p@) == Some(t@),
            None => after_prefix(s@, p@) is None,
        },
{
    let x = chars_of(s);
    let y = chars_of(p);
    if stands_at(&x, &y, 0) {
        Some(slice_text(&x, y.len(), x.len()))
    } else {
        None
    }
}

/// `s` without its trailing `p`, if it ends with `p`.
pub fn strip_end(s: &str, p: &str) -> (r: Option<String>)
    ensures
        match r {
            Some(t) => before_suffix(s@, p@) == Some(t@),
            None => before_suffix(s@, p@) is None,
        },
{
    let x = chars_of(s);
    let y = chars_of(p);
    if y.len() <= x.len() && stands_at(&x, &y, x.len() - y.len()) {
        Some(slice_text(&x, 0, x.len() - y.len()))
    } else {
        None
    }
}

/// Whether `p` is part of `s`.
pub fn contains(s: &str, p: &str) -> (r: bool)
    ensures
        r == occurs(s@, p@),
{
    let x = chars_of(s);
    let y = chars_of(p);
    let mut i: usize = 0;
    while i < x.len()
        invariant
            i <= x.len(),
            forall|j: int| 0 <= j < i ==> !occurs_at(x@, y@, j),
        decreases x.len() - i,
    {
        if stands_at(&x, &y, i) {
            return true;
        }
        i += 1;
    }
    stands_at(&x, &y, i)
}

/// Whether the character `c` occurs in `s`.
pub fn contains_char(s: &str, c: char) -> (r: bool)
    ensures
        r == s@.contains(c),
{
    let x = chars_of(s);
    let mut i: usize = 0;
    while i < x.len()
        invariant
            i <= x.len(),
            forall|j: int| 0 <= j < i ==> x@[j] != c,
        decreases x.len() - i,
    {
        if x[i] == c {
            return true;
        }
        i += 1;
    }
    false
}

/// The pieces of `s` between the separators `c`.
pub fn split_on(s: &str, c: char) -> (r: Vec<String>)
    ensures
        texts(r@) == split(s@, c),
        r.len() > 0,
{
    let x = chars_of(s);
    let mut out: Vec<String> = Vec::new();
    let mut cur = String::new();
    let mut i: usize = 0;
    assert(x@.take(0) =~= Seq::empty());
    while i < x.len()
        invariant
            i <= x.len(),
            split(x@.take(i as int), c) == texts(out@).push(cur@),
        decreases x.len() - i,
    {
        assert(x@.take(i + 1).drop_last() =~= x@.take(i as int));
        let ghost before = texts(out@);
        if x[i] == c {
            let mut piece = String::new();
            std::mem::swap(&mut piece, &mut cur);
            out.push(piece);
            assert(texts(out@) =~= before.push(piece@));
        } else {
            cur.push(x[i]);
            assert(before.push(cur@) =~= split(x@.take(i as int), c).drop_last().push(cur@));
        }
        i += 1;
    }
    assert(x@.take(i as int) =~= x@);
    let ghost before = texts(out@);
    out.push(cur);
    assert(texts(out@) =~= before.push(cur@));
    out
}

/// The lines of `s`.
pub fn lines_of(s: &str) -> (r: Vec<String>)
    ensures
        texts(r@) == lines(s@),
{
    let pieces = split_on(s, '\n');
    let mut out: Vec<String> = Vec::new();
    let mut i: usize = 0;
    while i + 1 < pieces.len()
        invariant
            i < pieces.len(),
            texts(out@) == texts(pieces@).take(i as int).map_values(
                |l: Seq<char>| without_return(l),
            ),
        decreases pieces.len() - i,
    {
        let ghost before = texts(out@);
        let cs = chars_of(pieces[i].as_str());
        if cs.len() > 0 && cs[cs.len() - 1] == '\r' {
            out.push(slice_text(&cs, 0, cs.len() - 1));
        } else {
            out.push(pieces[i].clone());
        }
        assert(texts(out@) =~= before.push(without_return(pieces@[i as int]@)));
        i += 1;
    }
    assert(texts(pieces@).take(i as int) =~= texts(pieces@).drop_last());
    let last = &pieces[i];
    let ghost before = texts(out@);
    if !last.as_str().is_empty() {
        out.push(last.clone());
        assert(texts(out@) =~= before.push(last@));
    }
    out
}

/// Whether `c` is white space.
pub fn space(c: char) -> (r: bool)
    ensures
        r == is_space(c),
{
    let n: u32 = c as u32;
    (9 <= n && n <= 13) || n == 0x20 || n == 0x85 || n == 0xA0 || n == 0x1680 || (0x2000 <= n && n
        <= 0x200A) || n == 0x2028 || n == 0x2029 || n == 0x202F || n == 0x205F || n == 0x3000
}

/// `s` without its leading white space.
pub fn trim_start_of(s: &str) -> (r: String)
    ensures
        r@ == trim_start(s@),
{
    let cs = chars_of(s);
    let mut i: usize = 0;
    assert(cs@.skip(0) =~= cs@);
    while i < cs.len() && space(cs[i])
        invariant
            i <= cs.len(),
            trim_start(cs@.skip(i as int)) == trim_start(cs@),
        decreases cs.len() - i,
    {
        assert(cs@.skip(i as int).drop_first() =~= cs@.skip(i + 1));
        i += 1;
    }
    assert(cs@.subrange(i as int, cs.len() as int) =~= cs@.skip(i as int));
    slice_text(&cs, i, cs.len())
}

/// `s` without its trailing white space.
pub fn trim_end_of(s: &str) -> (r: String)
    ensures
        r@ == trim_end(s@),
{
    let cs = chars_of(s);
    let mut n: usize = cs.len();
    assert(cs@.take(n as int) =~= cs@);
    while n > 0 && space(cs[n - 1])
        invariant
            n <= cs.len(),
            trim_end(cs@.take(n as int)) == trim_end(cs@),
        decreases n,
    {
        assert(cs@.take(n as int).drop_last() =~= cs@.take(n - 1));
        n -= 1;
    }
    assert(cs@.subrange(0, n as int) =~= cs@.take(n as int));
    slice_text(&cs, 0, n)
}

/// `s` without the white space around it.
pub fn trimmed(s: &str) -> (r: String)
    ensures
        r@ == trim(s@),
{
    let t = trim_start_of(s);
    trim_end_of(t.as_str())
}

/// The longest start of `s` that holds no white space.
pub fn leading_word_of(s: &str) -> (r: String)
    ensures
        r@ == leading_word(s@),
{
    let cs = chars_of(s);
    let mut i: usize = 0;
    assert(cs@.skip(0) =~= cs@);
    while i < cs.len() && !space(cs[i])
        invariant
            i <= cs.len(),
            i + word_len(cs@.skip(i as int)) == word_len(cs@),
        decreases cs.len() - i,
    {
        assert(cs@.skip(i as int).drop_first() =~= cs@.skip(i + 1));
        i += 1;
    }
    assert(cs@.subrange(0, i as int) =~= cs@.take(i as int));
    slice_text(&cs, 0, i)
}

/// `s` with each occurrence of `from`, taken from the left, turned into `to`.
pub fn replace_all(s: &str, from: &str, to: &str) -> (r: String)
    requires
        from@.len() > 0,
    ensures
        r@ == replaced(s@, from@, to@),
{
    let cs = chars_of(s);
    let p = chars_of(from);
    let mut out = String::new();
    let mut i: usize = 0;
    assert(cs@.skip(0) =~= cs@);
    assert(out@ + replaced(cs@, from@, to@) =~= replaced(cs@, from@, to@));
    while i < cs.len()
        invariant
            i <= cs.len(),
            p@ == from@,
            cs@ == s@,
            out@ + replaced(cs@.skip(i as int), from@, to@) == replaced(s@, from@, to@),
        decreases cs.len() - i,
    {
        let ghost rest = cs@.skip(i as int);
        let ghost before = out@;
        if stands_at(&cs, &p, i) {
            assert(rest.subrange(0, p.len() as int) =~= cs@.subrange(i as int, i + p.len()));
            assert(rest.skip(p.len() as int) =~= cs@.skip(i + p.len()));
            out.append(to);
            i += p.len();
            assert(before + (to@ + replaced(cs@.skip(i as int), from@, to@)) =~= out@ + replaced(
                cs@.skip(i as int),
                from@,
                to@,
            ));
        } else {
            assert(!from@.is_prefix_of(rest)) by {
                if from@.is_prefix_of(rest) {
                    assert(rest.subrange(0, p.len() as int) =~= cs@.subrange(
                        i as int,
                        i + p.len(),
                    ));
                }
            }
            assert(rest.drop_first() =~= cs@.skip(i + 1));
            out.push(cs[i]);
            i += 1;
            assert(before + (seq![rest[0]] + replaced(cs@.skip(i as int), from@, to@)) =~= out@
                + replaced(cs@.skip(i as int), from@, to@));
        }
    }
    assert(cs@.skip(i as int) =~= Seq::<char>::empty());
    assert(replaced(Seq::<char>::empty(), from@, to@) =~= Seq::<char>::empty());
    assert(out@ + Seq::<char>::empty() =~= out@);
    out
}

/// The texts put one after the other with `sep` between them.
pub fn join_with(parts: &Vec<String>, sep: &str) -> (r: String)
    ensures
        r@ == join(texts(parts@), sep@),
{
    let mut out = String::new();
    let mut i: usize = 0;
    assert(texts(parts@).take(0) =~= Seq::<Seq<char>>::empty());
    while i < parts.len()
        invariant
            i <= parts.len(),
            out@ == join(texts(parts@).take(i as int), sep@),
        decreases parts.len() - i,
    {
        assert(texts(parts@).take(i + 1).drop_last() =~= texts(parts@).take(i as int));
        let ghost before = out@;
        if i > 0 {
            out.append(sep);
        }
        out.append(parts[i].as_str());
        assert(i == 0 ==> out@ =~= parts@[0]@);
        i += 1;
    }
    assert(texts(parts@).take(i as int) =~= texts(parts@));
    out
}

/// `n` in decimal.
pub fn decimal_of(n: u64) -> (r: String)
    ensures
        r@ == decimal(n as nat),
{
    wide_decimal_of(n as u128)
}

/// `n` in decimal.
pub fn wide_decimal_of(n: u128) -> (r: String)
    ensures
        r@ == decimal(n as nat),
    decreases n,
{
    let c: char = digit_char((n % 10) as u32);
    if n < 10 {
        let mut out = String::new();
        out.push(c);
        assert(out@ =~= seq![digit(n as nat)]);
        out
    } else {
        let mut out = wide_decimal_of(n / 10);
        out.push(c);
        out
    }
}

/// The digit that stands for `d`.
fn digit_char(d: u32) -> (r: char)
    requires
        d < 10,
    ensures
        r == digit(d as nat),
{
    if d == 0 {
        '0'
    } else if d == 1 {
        '1'
    } else if d == 2 {
        '2'
    } else if d == 3 {
        '3'
    } else if d == 4 {
        '4'
    } else if d == 5 {
        '5'
    } else if d == 6 {
        '6'
    } else if d == 7 {
        '7'
    } else if d == 8 {
        '8'
    } else {
        '9'
    }
}

/// A number written in decimal is read back as it was.
pub proof fn law_decimal_reads_back(n: nat)
    ensures
        all_digits(decimal(n)),
        digits_value(decimal(n)) == n,
        parsed_number(decimal(n), n) == Some(n),
    decreases n,
{
    if n < 10 {
        let s = decimal(n);
        assert(s.drop_last() =~= Seq::<char>::empty());
        assert(s.last() == digit(n));
        reveal_with_fuel(digits_value, 2);
    } else {
        law_decimal_reads_back(n / 10);
        let s = decimal(n);
        assert(s.drop_last() =~= decimal(n / 10));
        assert(s.last() == digit(n % 10));
        assert forall|i: int| 0 <= i < s.len() implies is_digit(#[trigger] s[i]) by {
            if i < s.len() - 1 {
                assert(s[i] == decimal(n / 10)[i]);
            }
        }
    }
    let s = decimal(n);
    assert(is_digit(s[0]));
    assert(unsigned_part(s) == s);
}

/// Different numbers are written differently.
pub proof fn lemma_decimal_injective(a: nat, b: nat)
    requires
        decimal(a) == decimal(b),
    ensures
        a == b,
{
    law_decimal_reads_back(a);
    law_decimal_reads_back(b);
}

proof fn lemma_digits_value_grows(s: Seq<char>, n: int)
    requires
        0 <= n <= s.len(),
        forall|i: int| 0 <= i < s.len() ==> is_digit(#[trigger] s[i]),
    ensures
        digits_value(s.take(n)) <= digits_value(s),
    decreases s.len() - n,
{
    if n == s.len() {
        assert(s.take(n) =~= s);
    } else {
        lemma_digits_value_grows(s, n + 1);
        assert(s.take(n + 1).drop_last() =~= s.take(n));
    }
}

/// The unsigned number that `s` writes down, if it fits.
pub fn parse_number(s: &str) -> (r: Option<u64>)
    ensures
        match r {
            Some(n) => parsed_number(s@, u64::MAX as nat) == Some(n as nat),
            None => parsed_number(s@, u64::MAX as nat) is None,
        },
{
    let cs = chars_of(s);
    let start: usize = if cs.len() > 0 && cs[0] == '+' {
        1
    } else {
        0
    };
    let ghost t = unsigned_part(cs@);
    assert(t =~= cs@.skip(start as int));
    if start == cs.len() {
        return None;
    }
    let mut value: u64 = 0;
    let mut i: usize = start;
    assert(t.take(0) =~= Seq::<char>::empty());
    while i < cs.len()
        invariant
            start <= i <= cs.len(),
            forall|j: int| 0 <= j < i - start ==> is_digit(#[trigger] t[j]),
            value == digits_value(t.take(i - start)),
        decreases cs.len() - i,
    {
        let c = cs[i];
        assert(t[i - start] == c);
        if !('0' <= c && c <= '9') {
            assert(!is_digit(t[i - start]));
            return None;
        }
        assert(t.take(i + 1 - start).drop_last() =~= t.take(i - start));
        let d: u64 = (c as u32 - 48) as u64;
        let room: u64 = u64::MAX - d;
        if value > room / 10 {
            proof {
                assert(t.take(i + 1 - start).last() == c);
                assert(digits_value(t.take(i + 1 - start)) == 10 * value + d);
                if all_digits(t) {
                    lemma_digits_value_grows(t, i + 1 - start);
                }
            }
            return None;
        }
        value = value * 10 + d;
        i += 1;
    }
    assert(t.take(i - start) =~= t);
    Some(value)
}

/// The unsigned number that `s` writes down, if it fits a size.
pub fn parse_size(s: &str) -> (r: Option<usize>)
    ensures
        match r {
            Some(n) => parsed_number(s@, usize::MAX as nat) == Some(n as nat),
            None => parsed_number(s@, usize::MAX as nat) is None,
        },
{
    match parse_number(s) {
        Some(n) => if n <= usize::MAX as u64 {
            Some(n as usize)
        } else {
            None
        },
        None => None,
    }
}

/// Whether `a` stands before `b` in lexicographic order.
pub fn before(a: &str, b: &str) -> (r: bool)
    ensures
        r == precedes(a@, b@),
{
    let x = chars_of(a);
    let y = chars_of(b);
    let mut i: usize = 0;
    assert(x@.skip(0) =~= x@);
    assert(y@.skip(0) =~= y@);
    while i < x.len() && i < y.len() && x[i] == y[i]
        invariant
            i <= x.len(),
            i <= y.len(),
            precedes(x@.skip(i as int), y@.skip(i as int)) == precedes(x@, y@),
        decreases x.len() - i,
    {
        assert(x@.skip(i as int).drop_first() =~= x@.skip(i + 1));
        assert(y@.skip(i as int).drop_first() =~= y@.skip(i + 1));
        i += 1;
    }
    if i == y.len() {
        false
    } else if i == x.len() {
        true
    } else {
        x[i] < y[i]
    }
}

/// Whether the list holds the text `t`.
pub fn holds(v: &Vec<String>, t: &str) -> (r: bool)
    ensures
        r == lists(v@, t@),
{
    let mut i: usize = 0;
    while i < v.len()
        invariant
            i <= v.len(),
            forall|j: int| 0 <= j < i ==> (#[trigger] v@[j])@ != t@,
        decreases v.len() - i,
    {
        if same(v[i].as_str(), t) {
            return true;
        }
        i += 1;
    }
    false
}

/// A copy of a string that may be missing.
pub fn opt_clone(s: &Option<String>) -> (r: Option<String>)
    ensures
        opt(r) == opt(*s),
{
    match s {
        Some(t) => Some(t.clone()),
        None => None,
    }
}

/// The texts one after the other.
pub fn cat2(a: &str, b: &str) -> (r: String)
    ensures
        r@ == a@ + b@,
{
    let mut out = a.to_string();
    out.append(b);
    out
}

/// The texts one after the other.
pub fn cat3(a: &str, b: &str, c: &str) -> (r: String)
    ensures
        r@ == a@ + b@ + c@,
{
    let mut out = a.to_string();
    out.append(b);
    out.append(c);
    out
}

/// The texts one after the other.
pub fn cat4(a: &str, b: &str, c: &str, d: &str) -> (r: String)
    ensures
        r@ == a@ + b@ + c@ + d@,
{
    let mut out = a.to_string();
    out.append(b);
    out.append(c);
    out.append(d);
    out
}

proof fn lemma_first_at(s: Seq<char>, p: Seq<char>, i: int)
    requires
        0 <= i <= s.len(),
    ensures
        match first_at(s, p, i) {
            Some(k) => i <= k && occurs_at(s, p, k) && forall|j: int|
                i <= j < k ==> !occurs_at(s, p, j),
            None => forall|j: int| i <= j ==> !occurs_at(s, p, j),
        },
    decreases s.len() - i,
{
    if !occurs_at(s, p, i) {
        if i < s.len() {
            lemma_first_at(s, p, i + 1);
        } else {
            assert(first_at(s, p, i + 1) is None);
        }
    }
}

proof fn lemma_first_unique(s: Seq<char>, p: Seq<char>, k: int)
    requires
        occurs_at(s, p, k),
        forall|j: int| 0 <= j < k ==> !occurs_at(s, p, j),
    ensures
        first_at(s, p, 0) == Some(k),
{
    lemma_first_at(s, p, 0);
}

proof fn lemma_occurs_shift(s: Seq<char>, p: Seq<char>, from: int, i: int)
    requires
        0 <= from <= s.len(),
        0 <= i,
    ensures
        occurs_at(s.skip(from), p, i) == occurs_at(s, p, from + i),
{
    if 0 <= i <= s.len() - from - p.len() {
        assert(s.skip(from).subrange(i, i + p.len()) =~= s.subrange(from + i, from + i + p.len()));
    }
}

/// The pieces of `s` between the occurrences of `p`.
pub fn split_on_text(s: &str, p: &str) -> (r: Vec<String>)
    requires
        p@.len() > 0,
    ensures
        texts(r@) == split_text(s@, p@),
{
    let cs = chars_of(s);
    let ps = chars_of(p);
    let mut out: Vec<String> = Vec::new();
    let mut start: usize = 0;
    let mut i: usize = 0;
    assert(cs@.skip(0) =~= cs@);
    assert(texts(out@) + split_text(cs@, p@) =~= split_text(s@, p@));
    while i < cs.len()
        invariant
            start <= i <= cs.len(),
            cs@ == s@,
            ps@ == p@,
            texts(out@) + split_text(cs@.skip(start as int), p@) == split_text(s@, p@),
            forall|j: int| 0 <= j < i - start ==> !occurs_at(cs@.skip(start as int), p@, j),
        decreases cs.len() - i,
    {
        let ghost rest = cs@.skip(start as int);
        proof {
            lemma_occurs_shift(cs@, p@, start as int, i - start);
        }
        if stands_at(&cs, &ps, i) {
            let ghost sofar = texts(out@);
            proof {
                lemma_first_unique(rest, p@, i - start);
            }
            out.push(slice_text(&cs, start, i));
            let next: usize = i + ps.len();
            proof {
                assert(texts(out@) =~= sofar.push(cs@.subrange(start as int, i as int)));
                assert(rest.take(i - start) =~= cs@.subrange(start as int, i as int));
                assert(rest.skip(i - start + p@.len()) =~= cs@.skip(next as int));
                assert(sofar + (seq![rest.take(i - start)] + split_text(
                    cs@.skip(next as int),
                    p@,
                )) =~= texts(out@) + split_text(cs@.skip(next as int), p@));
            }
            start = next;
            i = next;
        } else {
            i += 1;
        }
    }
    let ghost rest = cs@.skip(start as int);
    proof {
        assert forall|j: int| !occurs_at(rest, p@, j) by {}
        lemma_first_at(rest, p@, 0);
        assert(split_text(rest, p@) =~= seq![rest]);
    }
    let ghost sofar = texts(out@);
    out.push(slice_text(&cs, start, cs.len()));
    assert(cs@.subrange(start as int, cs.len() as int) =~= rest);
    assert(texts(out@) =~= sofar + seq![rest]);
    out
}

/// The piece of `s` between the first and the second occurrence of `p`.
pub fn piece_after(s: &str, p: &str) -> (r: Option<String>)
    requires
        p@.len() > 0,
    ensures
        opt(r) == after_first(s@, p@),
{
    let pieces = split_on_text(s, p);
    assert(texts(pieces@).len() == pieces.len());
    if pieces.len() > 1 {
        Some(pieces[1].clone())
    } else {
        None
    }
}

/// `s` up to the first `a` or `b`.
pub fn upto_either(s: &str, a: char, b: char) -> (r: String)
    ensures
        r@ == upto(s@, a, b),
{
    let cs = chars_of(s);
    let mut i: usize = 0;
    assert(cs@.skip(0) =~= cs@);
    while i < cs.len() && cs[i] != a && cs[i] != b
        invariant
            i <= cs.len(),
            i + run_before(cs@.skip(i as int), a, b) == run_before(cs@, a, b),
        decreases cs.len() - i,
    {
        assert(cs@.skip(i as int).drop_first() =~= cs@.skip(i + 1));
        i += 1;
    }
    assert(cs@.subrange(0, i as int) =~= cs@.take(i as int));
    slice_text(&cs, 0, i)
}

/// What stands before and behind the first `c`.
pub fn cut_at(s: &str, c: char) -> (r: Option<(String, String)>)
    ensures
        match r {
            Some((a, b)) => cut(s@, c) == Some((a@, b@)),
            None => cut(s@, c) is None,
        },
{
    let cs = chars_of(s);
    let mut i: usize = 0;
    assert(cs@.skip(0) =~= cs@);
    while i < cs.len() && cs[i] != c
        invariant
            i <= cs.len(),
            i + run_before(cs@.skip(i as int), c, c) == run_before(cs@, c, c),
        decreases cs.len() - i,
    {
        assert(cs@.skip(i as int).drop_first() =~= cs@.skip(i + 1));
        i += 1;
    }
    if i < cs.len() {
        assert(cs@.subrange(0, i as int) =~= cs@.take(i as int));
        assert(cs@.subrange(i + 1, cs.len() as int) =~= cs@.skip(i + 1));
        Some((slice_text(&cs, 0, i), slice_text(&cs, i + 1, cs.len())))
    } else {
        None
    }
}

/// `s` without any number of trailing `p`.
pub fn trim_ends(s: &str, p: &str) -> (r: String)
    requires
        p@.len() > 0,
    ensures
        r@ == without_ends(s@, p@),
    decreases s@.len(),
{
    match strip_end(s, p) {
        Some(t) => trim_ends(t.as_str(), p),
        None => s.to_string(),
    }
}

// ── What texts and their pieces have to do with each other ──

/// Trimming takes white space from both ends, all of it and nothing else.
pub proof fn law_trim(s: Seq<char>)
    ensures
        trim(s).len() > 0 ==> !is_space(trim(s)[0]) && !is_space(trim(s).last()),
        exists|i: int, j: int|
            0 <= i <= j <= s.len() && trim(s) == #[trigger] s.subrange(i, j) && (forall|k: int|
                0 <= k < i ==> is_space(#[trigger] s[k])) && (forall|k: int|
                j <= k < s.len() ==> is_space(#[trigger] s[k])),
{
    lemma_trim_start(s);
    let t = trim_start(s);
    lemma_trim_end(t);
    let i = s.len() - t.len();
    let j = i + trim_end(t).len();
    assert(s.subrange(i, j) =~= trim(s)) by {
        assert(t =~= s.skip(i));
        assert(trim_end(t) =~= t.take(trim_end(t).len() as int));
    }
    assert forall|k: int| j <= k < s.len() implies is_space(#[trigger] s[k]) by {
        assert(t[k - i] == s[k]);
    }
    if trim(s).len() > 0 {
        assert(trim(s)[0] == t[0]);
    }
}

proof fn lemma_trim_start(s: Seq<char>)
    ensures
        trim_start(s).len() <= s.len(),
        trim_start(s) == s.skip(s.len() - trim_start(s).len()),
        trim_start(s).len() > 0 ==> !is_space(trim_start(s)[0]),
        forall|k: int|
            0 <= k < s.len() - trim_start(s).len() ==> is_space(#[trigger] s[k]),
    decreases s.len(),
{
    if s.len() > 0 && is_space(s[0]) {
        let rest = s.drop_first();
        lemma_trim_start(rest);
        assert(s.skip(s.len() - trim_start(s).len()) =~= rest.skip(
            rest.len() - trim_start(rest).len(),
        ));
        assert forall|k: int| 0 <= k < s.len() - trim_start(s).len() implies is_space(
            #[trigger] s[k],
        ) by {
            if k > 0 {
                assert(rest[k - 1] == s[k]);
            }
        }
    } else {
        assert(s.skip(0) =~= s);
    }
}

proof fn lemma_trim_end(s: Seq<char>)
    ensures
        trim_end(s).len() <= s.len(),
        trim_end(s) == s.take(trim_end(s).len() as int),
        trim_end(s).len() > 0 ==> !is_space(trim_end(s).last()),
        forall|k: int| trim_end(s).len() <= k < s.len() ==> is_space(#[trigger] s[k]),
    decreases s.len(),
{
    if s.len() > 0 && is_space(s.last()) {
        let rest = s.drop_last();
        lemma_trim_end(rest);
        assert(s.take(trim_end(s).len() as int) =~= rest.take(trim_end(rest).len() as int));
        assert forall|k: int| trim_end(s).len() <= k < s.len() implies is_space(
            #[trigger] s[k],
        ) by {
            if k < rest.len() {
                assert(rest[k] == s[k]);
            }
        }
    } else {
        assert(s.take(s.len() as int) =~= s);
    }
}

/// The leading word is a start of the text without white space, and what follows it, if anything,
/// is white space.
pub proof fn law_leading_word(s: Seq<char>)
    ensures
        leading_word(s).is_prefix_of(s),
        forall|k: int| 0 <= k < leading_word(s).len() ==> !is_space(#[trigger] s[k]),
        leading_word(s).len() < s.len() ==> is_space(s[leading_word(s).len() as int]),
{
    lemma_word_len(s);
}

proof fn lemma_word_len(s: Seq<char>)
    ensures
        word_len(s) <= s.len(),
        forall|k: int| 0 <= k < word_len(s) ==> !is_space(#[trigger] s[k]),
        word_len(s) < s.len() ==> is_space(s[word_len(s) as int]),
    decreases s.len(),
{
    if s.len() > 0 && !is_space(s[0]) {
        let rest = s.drop_first();
        lemma_word_len(rest);
        assert forall|k: int| 0 <= k < word_len(s) implies !is_space(#[trigger] s[k]) by {
            if k > 0 {
                assert(rest[k - 1] == s[k]);
            }
        }
        if word_len(s) < s.len() {
            assert(rest[word_len(rest) as int] == s[word_len(s) as int]);
        }
    }
}

/// The part up to a character is a start of the text that holds neither of the two, and what
/// follows it, if anything, is one of them.
pub proof fn law_upto(s: Seq<char>, a: char, b: char)
    ensures
        upto(s, a, b).is_prefix_of(s),
        !upto(s, a, b).contains(a) && !upto(s, a, b).contains(b),
        upto(s, a, b).len() < s.len() ==> s[upto(s, a, b).len() as int] == a || s[upto(
            s,
            a,
            b,
        ).len() as int] == b,
        upto(s, a, b).len() == run_before(s, a, b),
    decreases s.len(),
{
    if s.len() > 0 && s[0] != a && s[0] != b {
        let rest = s.drop_first();
        law_upto(rest, a, b);
        assert(upto(s, a, b) =~= seq![s[0]] + upto(rest, a, b));
        assert forall|k: int| 0 <= k < upto(s, a, b).len() implies upto(s, a, b)[k] != a && upto(
            s,
            a,
            b,
        )[k] != b by {
            if k > 0 {
                assert(upto(rest, a, b)[k - 1] == upto(s, a, b)[k]);
            }
        }
        if upto(s, a, b).len() < s.len() {
            assert(s[upto(s, a, b).len() as int] == rest[upto(rest, a, b).len() as int]);
        }
    }
}

/// Cutting at a character gives the two sides of its first place, and nothing where it has none.
pub proof fn law_cut(s: Seq<char>, c: char)
    ensures
        cut(s, c) matches Some((a, b)) ==> s == a + seq![c] + b && !a.contains(c),
        cut(s, c) is None <==> !s.contains(c),
{
    law_upto(s, c, c);
    if let Some((a, b)) = cut(s, c) {
        assert(s =~= a + seq![c] + b);
        assert(s[a.len() as int] == c);
    } else {
        assert(upto(s, c, c) =~= s);
    }
}

/// The first place of a text is one of it, and none before it is.
pub proof fn law_first_at(s: Seq<char>, p: Seq<char>, i: int)
    requires
        0 <= i,
    ensures
        match first_at(s, p, i) {
            Some(k) => i <= k && occurs_at(s, p, k) && forall|j: int|
                i <= j < k ==> !occurs_at(s, p, j),
            None => forall|j: int| i <= j ==> !occurs_at(s, p, j),
        },
    decreases s.len() + 1 - i,
{
    if i <= s.len() {
        law_first_at(s, p, i + 1);
    }
}

/// The pieces of a text between the places of another, joined by that, are the text again; the first
/// of them goes up to the first place.
pub proof fn law_split_text_joins(s: Seq<char>, p: Seq<char>)
    requires
        p.len() > 0,
    ensures
        split_text(s, p).len() > 0,
        first_at(s, p, 0) is None ==> split_text(s, p) == seq![s],
        first_at(s, p, 0) matches Some(i) ==> split_text(s, p)[0] == s.take(i) && split_text(
            s,
            p,
        ).skip(1) == split_text(s.skip(i + p.len()), p),
        split_text(s, p).len() > 1 <==> occurs(s, p),
    decreases s.len(),
{
    law_first_at(s, p, 0);
    if let Some(i) = first_at(s, p, 0) {
        law_split_text_joins(s.skip(i + p.len()), p);
        assert(split_text(s, p).skip(1) =~= split_text(s.skip(i + p.len()), p));
    }
}

/// Replacing leaves a text alone in which there is nothing to replace, and goes on behind the first
/// place of what there is.
pub proof fn law_replaced(s: Seq<char>, from: Seq<char>, to: Seq<char>)
    requires
        from.len() > 0,
    ensures
        first_at(s, from, 0) is None ==> replaced(s, from, to) == s,
        first_at(s, from, 0) matches Some(i) ==> replaced(s, from, to) == s.take(i) + to + replaced(
            s.skip(i + from.len()),
            from,
            to,
        ),
    decreases s.len(),
{
    law_first_at(s, from, 0);
    if from.is_prefix_of(s) {
        assert(s.subrange(0, from.len() as int) =~= from);
        assert(occurs_at(s, from, 0));
        assert(s.take(0) =~= Seq::<char>::empty());
        assert(s.take(0) + to =~= to);
    } else if s.len() > 0 {
        let rest = s.drop_first();
        law_replaced(rest, from, to);
        law_first_at(rest, from, 0);
        assert(!occurs_at(s, from, 0)) by {
            if occurs_at(s, from, 0) {
                assert(s.subrange(0, from.len() as int) =~= from);
                assert(from.is_prefix_of(s));
            }
        }
        assert forall|j: int| 1 <= j implies #[trigger] occurs_at(s, from, j) == occurs_at(
            rest,
            from,
            j - 1,
        ) by {
            if j + from.len() <= s.len() {
                assert(s.subrange(j, j + from.len()) =~= rest.subrange(j - 1, j - 1 + from.len()));
            }
        }
        match first_at(rest, from, 0) {
            Some(k) => {
                assert(occurs_at(s, from, k + 1));
                let i = first_at(s, from, 0).unwrap();
                assert(i == k + 1) by {
                    if i < k + 1 {
                        assert(occurs_at(s, from, i));
                        assert(occurs_at(rest, from, i - 1));
                    }
                }
                assert(s.skip(i + from.len()) =~= rest.skip(k + from.len()));
                assert(s.take(i) =~= seq![s[0]] + rest.take(k));
                assert(replaced(s, from, to) =~= s.take(i) + to + replaced(
                    s.skip(i + from.len()),
                    from,
                    to,
                ));
            },
            None => {
                if let Some(i) = first_at(s, from, 0) {
                    assert(occurs_at(s, from, i));
                    assert(occurs_at(rest, from, i - 1));
                }
                assert(seq![s[0]] + rest =~= s);
            },
        }
    } else {
        assert(s =~= Seq::<char>::empty());
        if let Some(i) = first_at(s, from, 0) {
            assert(occurs_at(s, from, i));
        }
    }
}

/// A text without the ends that it may have no longer has such an end, and is a start of the text.
pub proof fn law_without_ends(s: Seq<char>, p: Seq<char>)
    requires
        p.len() > 0,
    ensures
        without_ends(s, p).is_prefix_of(s),
        !p.is_suffix_of(without_ends(s, p)),
        !p.is_suffix_of(s) ==> without_ends(s, p) == s,
        !p.is_suffix_of(s) ==> without_ends(s + p, p) == s,
    decreases s.len(),
{
    let more = s + p;
    assert(more.take(more.len() - p.len()) =~= s);
    assert(more.subrange(more.len() - p.len(), more.len() as int) =~= p);
    assert(p.is_suffix_of(more));
    if p.is_suffix_of(s) {
        let rest = s.take(s.len() - p.len());
        law_without_ends(rest, p);
        assert(without_ends(rest, p).is_prefix_of(rest));
        assert(without_ends(s, p).is_prefix_of(s)) by {
            assert(forall|k: int| 0 <= k < rest.len() ==> rest[k] == s[k]);
            assert(s.subrange(0, without_ends(s, p).len() as int) =~= without_ends(s, p));
        }
    } else {
        assert(s.subrange(0, s.len() as int) =~= s);
        reveal_with_fuel(without_ends, 2);
    }
}

/// Texts are ordered by the first character in which they differ; a start of a text comes before
/// it.
pub proof fn law_order_of_texts(a: Seq<char>, b: Seq<char>, i: int)
    requires
        0 <= i <= a.len(),
        i <= b.len(),
        a.take(i) == b.take(i),
    ensures
        i < a.len() && i < b.len() && a[i] != b[i] ==> (precedes(a, b) <==> (a[i] as int) < (
        b[i] as int)),
        i == a.len() && i < b.len() ==> precedes(a, b),
        i == b.len() ==> !precedes(a, b),
    decreases a.len(),
{
    if i > 0 {
        assert(a.take(i)[0] == a[0] && b.take(i)[0] == b[0]);
        let c = a.drop_first();
        let d = b.drop_first();
        assert(c.take(i - 1) =~= a.take(i).drop_first());
        assert(d.take(i - 1) =~= b.take(i).drop_first());
        law_order_of_texts(c, d, i - 1);
        if i < a.len() {
            assert(c[i - 1] == a[i]);
        }
        if i < b.len() {
            assert(d[i - 1] == b[i]);
        }
    }
}

/// A text is the lines that it is made of: each ended by a line feed, with or without a carriage
/// return before it.
pub proof fn law_lines(parts: Seq<Seq<char>>)
    requires
        parts.len() > 0,
        forall|i: int| 0 <= i < parts.len() ==> !(#[trigger] parts[i]).contains('\n'),
    ensures
        parts.last().len() > 0 ==> lines(join(parts, seq!['\n'])).len() == parts.len() && lines(
            join(parts, seq!['\n']),
        ).last() == parts.last(),
        parts.last().len() == 0 ==> lines(join(parts, seq!['\n'])).len() == parts.len() - 1,
        forall|i: int|
            0 <= i < parts.len() - 1 ==> #[trigger] lines(join(parts, seq!['\n']))[i] == (
            if parts[i].len() > 0 && parts[i].last() == '\r' {
                parts[i].drop_last()
            } else {
                parts[i]
            }),
{
    lemma_split_join(parts, '\n');
}

/// A number is read where the text is made of digits, behind one plus sign at most, and is not too
/// large; one digit more makes it ten times as large and adds the digit.
pub proof fn law_numbers_are_read(s: Seq<char>, d: nat, limit: nat)
    requires
        d < 10,
    ensures
        parsed_number(s, limit) is Some ==> parsed_number(s, limit).unwrap() <= limit,
        parsed_number(s, limit) is Some ==> s.len() > 0 && forall|i: int|
            0 <= i < s.len() ==> is_digit(#[trigger] s[i]) || (i == 0 && s[i] == '+'),
        all_digits(s) ==> digits_value(s.push(digit(d))) == 10 * digits_value(s) + d,
        digits_value(seq![digit(d)]) == d,
        all_digits(s) && digits_value(s) <= limit ==> parsed_number(s, limit) == Some(
            digits_value(s),
        ) && parsed_number(seq!['+'] + s, limit) == Some(digits_value(s)),
{
    assert(s.push(digit(d)).drop_last() =~= s);
    assert(seq![digit(d)].drop_last() =~= Seq::<char>::empty());
    reveal_with_fuel(digits_value, 2);
    assert((seq!['+'] + s).drop_first() =~= s);
    if parsed_number(s, limit) is Some {
        let u = unsigned_part(s);
        assert forall|i: int| 0 <= i < s.len() implies is_digit(#[trigger] s[i]) || (i == 0 && s[i]
            == '+') by {
            if s[0] == '+' {
                if i > 0 {
                    assert(u[i - 1] == s[i]);
                }
            } else {
                assert(u[i] == s[i]);
            }
        }
    }
    if all_digits(s) {
        assert(is_digit(s[0]));
        assert(unsigned_part(s) == s);
    }
}

} // verus!
