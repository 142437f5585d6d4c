//! Grouping, counting and ranking of lists.

use vstd::prelude::*;
use vstd::string::*;

use crate::text;

verus! {

broadcast use text::lemma_texts_push;

/// The places among the first `n` where `key` stands, in order.
pub open spec fn places(keys: Seq<Seq<char>>, key: Seq<char>, n: nat) -> Seq<int>
    decreases n,
{
    if n == 0 {
        Seq::empty()
    } else if keys[n - 1] == key {
        places(keys, key, (n - 1) as nat).push(n - 1)
    } else {
        places(keys, key, (n - 1) as nat)
    }
}

/// A list of places as integers.
pub open spec fn ints(v: Seq<usize>) -> Seq<int> {
    v.map_values(|i: usize| i as int)
}

/// The texts in lexicographic order, each once.
pub fn distinct_sorted(v: &Vec<String>) -> (r: Vec<String>)
    ensures
        text::strictly_ordered(text::texts(r@)),
        forall|x: Seq<char>| #[trigger]
            text::texts(r@).contains(x) <==> text::texts(v@).contains(x),
{
    let mut out: Vec<String> = Vec::new();
    let mut i: usize = 0;
    while i < v.len()
        invariant
            i <= v.len(),
            text::strictly_ordered(text::texts(out@)),
            forall|x: Seq<char>| #[trigger]
                text::texts(out@).contains(x) <==> text::texts(v@).take(i as int).contains(x),
        decreases v.len() - i,
    {
        let ghost vs = text::texts(v@);
        let ghost t = v@[i as int]@;
        proof {
            assert(vs.take(i + 1) =~= vs.take(i as int).push(t));
            lemma_push_contains(vs.take(i as int), t);
        }
        insert_distinct(&mut out, v[i].clone());
        i += 1;
    }
    assert(text::texts(v@).take(i as int) =~= text::texts(v@));
    out
}

/// Puts a text into an ordered list at its place, where it is not there yet.
pub fn insert_distinct(list: &mut Vec<String>, t: String)
    requires
        text::strictly_ordered(text::texts(old(list)@)),
    ensures
        text::strictly_ordered(text::texts(final(list)@)),
        forall|x: Seq<char>| #[trigger]
            text::texts(final(list)@).contains(x) <==> text::texts(old(list)@).contains(x) || x
                == t@,
{
    let ghost before = text::texts(list@);
    let mut k: usize = 0;
    while k < list.len() && text::before(list[k].as_str(), t.as_str())
        invariant
            k <= list.len(),
            before == text::texts(list@),
            forall|j: int| 0 <= j < k ==> text::precedes(#[trigger] before[j], t@),
        decreases list.len() - k,
    {
        k += 1;
    }
    if k < list.len() && text::same(list[k].as_str(), t.as_str()) {
        assert(before[k as int] == t@);
        assert(before.contains(t@));
        return;
    }
    let ghost key = t@;
    list.insert(k, t);
    proof {
        let now = text::texts(list@);
        assert(now =~= before.insert(k as int, key));
        if k < before.len() {
            text::lemma_precedes_total(before[k as int], key);
        }
        assert forall|j: int| k <= j < before.len() implies text::precedes(
            key,
            #[trigger] before[j],
        ) by {
            if j > k {
                text::lemma_precedes_transitive(key, before[k as int], before[j]);
            }
        }
        assert forall|i: int, j: int| 0 <= i < j < now.len() implies text::precedes(
            #[trigger] now[i],
            #[trigger] now[j],
        ) by {
            let i0 = if i < k { i } else { i - 1 };
            let j0 = if j < k { j } else { j - 1 };
            assert(i != k ==> now[i] == before[i0]);
            assert(j != k ==> now[j] == before[j0]);
        }
        assert forall|x: Seq<char>| #[trigger] now.contains(x) <==> before.contains(x) || x
            == key by {
            if before.contains(x) {
                let i = before.index_of(x);
                assert(now[if i < k { i } else { i + 1 }] == x);
            }
            assert(now[k as int] == key);
            if now.contains(x) && x != key {
                let i = now.index_of(x);
                assert(before[if i < k { i } else { i - 1 }] == x);
            }
        }
    }
}

pub proof fn lemma_push_contains<A>(s: Seq<A>, x: A)
    ensures
        forall|y: A| #[trigger] s.push(x).contains(y) <==> s.contains(y) || y == x,
        s.no_duplicates() && !s.contains(x) ==> s.push(x).no_duplicates(),
{
    assert forall|y: A| #[trigger] s.push(x).contains(y) <==> s.contains(y) || y == x by {
        if s.contains(y) {
            assert(s.push(x)[s.index_of(y)] == y);
        }
        assert(s.push(x)[s.len() as int] == x);
        if s.push(x).contains(y) {
            let i = s.push(x).index_of(y);
            if i < s.len() {
                assert(s[i] == y);
            }
        }
    }
    if s.no_duplicates() && !s.contains(x) {
        assert forall|i: int, j: int|
            0 <= i < s.push(x).len() && 0 <= j < s.push(x).len() && i != j implies s.push(x)[i]
            != s.push(x)[j] by {
            if i == s.len() {
                assert(s.contains(s[j]));
            } else if j == s.len() {
                assert(s.contains(s[i]));
            }
        }
    }
}

/// The places of one key.
pub fn places_of(keys: &Vec<String>, key: &str) -> (r: Vec<usize>)
    ensures
        ints(r@) == places(text::texts(keys@), key@, keys@.len()),
{
    let mut out: Vec<usize> = Vec::new();
    let mut i: usize = 0;
    assert(ints(out@) =~= Seq::<int>::empty());
    while i < keys.len()
        invariant
            i <= keys.len(),
            ints(out@) == places(text::texts(keys@), key@, i as nat),
        decreases keys.len() - i,
    {
        let ghost sofar = ints(out@);
        assert(text::texts(keys@)[i as int] == keys@[i as int]@);
        if text::same(keys[i].as_str(), key) {
            out.push(i);
            assert(ints(out@) =~= sofar.push(i as int));
        }
        i += 1;
    }
    out
}

/// A key and the places where it stands.
pub struct Group {
    pub key: String,
    pub members: Vec<usize>,
}

/// The keys of a list of groups.
pub open spec fn group_keys(groups: Seq<Group>) -> Seq<Seq<char>> {
    groups.map_values(|g: Group| g.key@)
}

/// Whether the groups hold each key once, in order, with all its places.
pub open spec fn is_grouping(keys: Seq<Seq<char>>, groups: Seq<Group>) -> bool {
    &&& text::strictly_ordered(group_keys(groups))
    &&& forall|x: Seq<char>| #[trigger] group_keys(groups).contains(x) <==> keys.contains(x)
    &&& forall|g: int|
        0 <= g < groups.len() ==> ints((#[trigger] groups[g]).members@) == places(
            keys,
            groups[g].key@,
            keys.len(),
        )
}

/// The places of each key, key by key in lexicographic order.
pub fn groups_of(keys: &Vec<String>) -> (r: Vec<Group>)
    ensures
        is_grouping(text::texts(keys@), r@),
{
    let names = distinct_sorted(keys);
    let mut out: Vec<Group> = Vec::new();
    let mut i: usize = 0;
    assert(group_keys(out@) =~= text::texts(names@).take(0));
    while i < names.len()
        invariant
            i <= names.len(),
            group_keys(out@) == text::texts(names@).take(i as int),
            forall|g: int|
                0 <= g < out.len() ==> ints((#[trigger] out@[g]).members@) == places(
                    text::texts(keys@),
                    out@[g].key@,
                    keys@.len(),
                ),
        decreases names.len() - i,
    {
        let ghost sofar = group_keys(out@);
        let members = places_of(keys, names[i].as_str());
        out.push(Group { key: names[i].clone(), members });
        assert(group_keys(out@) =~= sofar.push(names@[i as int]@));
        assert(text::texts(names@).take(i + 1) =~= sofar.push(names@[i as int]@));
        i += 1;
    }
    assert(text::texts(names@).take(i as int) =~= text::texts(names@));
    out
}

/// Whether `r` lists the places of `scores` from the highest score down, the earlier place
/// first where scores are equal.
pub open spec fn is_ranking(scores: Seq<usize>, r: Seq<usize>) -> bool {
    &&& r.len() == scores.len()
    &&& forall|i: int| 0 <= i < r.len() ==> (#[trigger] r[i]) < scores.len()
    &&& forall|i: int, j: int|
        0 <= i < j < r.len() ==> ranks_before(scores, #[trigger] r[i] as int, #[trigger] r[j] as int)
}

/// Whether place `a` comes before place `b`.
pub open spec fn ranks_before(scores: Seq<usize>, a: int, b: int) -> bool {
    scores[a] > scores[b] || (scores[a] == scores[b] && a < b)
}

/// The places of the scores, from the highest score down; equal scores keep their order.
pub fn ranked(scores: &Vec<usize>) -> (r: Vec<usize>)
    ensures
        is_ranking(scores@, r@),
{
    let mut out: Vec<usize> = Vec::new();
    let mut i: usize = 0;
    while i < scores.len()
        invariant
            i <= scores.len(),
            out.len() == i,
            forall|a: int| 0 <= a < i ==> (#[trigger] out@[a]) < i,
            forall|a: int, b: int|
                0 <= a < b < i ==> ranks_before(
                    scores@,
                    #[trigger] out@[a] as int,
                    #[trigger] out@[b] as int,
                ),
        decreases scores.len() - i,
    {
        let mut k: usize = i;
        while k > 0 && scores[out[k - 1]] < scores[i]
            invariant
                k <= i,
                forall|a: int| k <= a < i ==> scores@[(#[trigger] out@[a]) as int] < scores@[i as int],
            decreases k,
        {
            k -= 1;
        }
        let ghost was = out@;
        out.insert(k, i);
        proof {
            let now = out@;
            assert forall|a: int, b: int| 0 <= a < b < i + 1 implies ranks_before(
                scores@,
                #[trigger] now[a] as int,
                #[trigger] now[b] as int,
            ) by {
                let a0 = if a < k { a } else { a - 1 };
                let b0 = if b < k { b } else { b - 1 };
                assert(a != k ==> now[a] == was[a0]);
                assert(b != k ==> now[b] == was[b0]);
                if b == k {
                    if a0 < k - 1 {
                        assert(ranks_before(scores@, was[a0] as int, was[k - 1] as int));
                    }
                }
            }
            assert forall|a: int| 0 <= a < i + 1 implies (#[trigger] now[a]) < i + 1 by {
                let a0 = if a < k { a } else { a - 1 };
                assert(a != k ==> now[a] == was[a0]);
            }
        }
        i += 1;
    }
    out
}

/// A ranking lists each place once.
pub proof fn law_ranking_is_complete(scores: Seq<usize>, r: Seq<usize>, v: int)
    requires
        is_ranking(scores, r),
        0 <= v < scores.len(),
    ensures
        exists|i: int| 0 <= i < r.len() && #[trigger] r[i] == v,
{
    let s = r.map_values(|x: usize| x as int);
    assert(s.no_duplicates()) by {
        assert forall|i: int, j: int| 0 <= i < s.len() && 0 <= j < s.len() && i != j implies s[i]
            != s[j] by {
            if i < j {
                assert(ranks_before(scores, r[i] as int, r[j] as int));
            } else {
                assert(ranks_before(scores, r[j] as int, r[i] as int));
            }
        }
    }
    let all = vstd::set_lib::set_int_range(0, scores.len() as int);
    vstd::set_lib::lemma_int_range(0, scores.len() as int);
    s.unique_seq_to_set();
    assert(s.to_set().subset_of(all)) by {
        assert forall|x: int| s.to_set().contains(x) implies all.contains(x) by {
            let i = s.index_of(x);
            assert(r[i] == x);
        }
    }
    if !s.to_set().contains(v) {
        assert(s.to_set().subset_of(all.remove(v)));
        vstd::set_lib::lemma_len_subset(s.to_set(), all.remove(v));
    }
    let i = s.index_of(v);
    assert(s.contains(v));
    assert(r[i] == v);
}

/// Whether place `a` comes before place `b`: by the text there, then by the place.
pub open spec fn reads_before(keys: Seq<Seq<char>>, a: int, b: int) -> bool {
    text::precedes(keys[a], keys[b]) || (keys[a] == keys[b] && a < b)
}

/// Whether `r` lists the places of `keys` in the order of the texts; equal texts keep their
/// order.
pub open spec fn is_sorting(keys: Seq<Seq<char>>, r: Seq<usize>) -> bool {
    &&& r.len() == keys.len()
    &&& forall|i: int| 0 <= i < r.len() ==> (#[trigger] r[i]) < keys.len()
    &&& forall|i: int, j: int|
        0 <= i < j < r.len() ==> reads_before(keys, #[trigger] r[i] as int, #[trigger] r[j] as int)
}

/// The places of the texts in lexicographic order; equal texts keep their order.
pub fn sorted_places(keys: &Vec<String>) -> (r: Vec<usize>)
    ensures
        is_sorting(text::texts(keys@), r@),
{
    let ghost ks = text::texts(keys@);
    let mut out: Vec<usize> = Vec::new();
    let mut i: usize = 0;
    while i < keys.len()
        invariant
            i <= keys.len(),
            ks == text::texts(keys@),
            out.len() == i,
            forall|a: int| 0 <= a < i ==> (#[trigger] out@[a]) < i,
            forall|a: int, b: int|
                0 <= a < b < i ==> reads_before(
                    ks,
                    #[trigger] out@[a] as int,
                    #[trigger] out@[b] as int,
                ),
        decreases keys.len() - i,
    {
        let mut k: usize = i;
        while k > 0 && text::before(keys[i].as_str(), keys[out[k - 1]].as_str())
            invariant
                k <= i,
                forall|a: int|
                    k <= a < i ==> text::precedes(ks[i as int], ks[(#[trigger] out@[a]) as int]),
            decreases k,
        {
            k -= 1;
        }
        let ghost was = out@;
        out.insert(k, i);
        proof {
            let now = out@;
            assert forall|a: int, b: int| 0 <= a < b < i + 1 implies reads_before(
                ks,
                #[trigger] now[a] as int,
                #[trigger] now[b] as int,
            ) by {
                let a0 = if a < k { a } else { a - 1 };
                let b0 = if b < k { b } else { b - 1 };
                assert(a != k ==> now[a] == was[a0]);
                assert(b != k ==> now[b] == was[b0]);
                if b == k {
                    let y = was[k - 1] as int;
                    text::lemma_precedes_total(ks[y], ks[i as int]);
                    if a0 < k - 1 {
                        assert(reads_before(ks, was[a0] as int, y));
                        if text::precedes(ks[was[a0] as int], ks[y]) && text::precedes(
                            ks[y],
                            ks[i as int],
                        ) {
                            text::lemma_precedes_transitive(
                                ks[was[a0] as int],
                                ks[y],
                                ks[i as int],
                            );
                        }
                    }
                }
            }
            assert forall|a: int| 0 <= a < i + 1 implies (#[trigger] now[a]) < i + 1 by {
                let a0 = if a < k { a } else { a - 1 };
                assert(a != k ==> now[a] == was[a0]);
            }
        }
        i += 1;
    }
    out
}

pub proof fn lemma_concat_contains<T>(a: Seq<T>, b: Seq<T>, x: T)
    ensures
        (a + b).contains(x) <==> a.contains(x) || b.contains(x),
{
    if a.contains(x) {
        assert((a + b)[a.index_of(x)] == x);
    }
    if b.contains(x) {
        assert((a + b)[a.len() + b.index_of(x)] == x);
    }
}

/// The places of a key are all where it stands, in order.
pub proof fn law_places_of_a_key(keys: Seq<Seq<char>>, key: Seq<char>, n: nat)
    ensures
        places(keys, key, n) == Seq::new(n, |i: int| i).filter(
            |i: int| keys[i] == key,
        ),
    decreases n,
{
    reveal(Seq::filter);
    let all = Seq::new(n, |i: int| i);
    if n > 0 {
        law_places_of_a_key(keys, key, (n - 1) as nat);
        assert(all.drop_last() =~= Seq::new((n - 1) as nat, |i: int| i));
        assert(all.last() == n - 1);
    } else {
        assert(all =~= Seq::<int>::empty());
    }
}

/// A ranking goes down, and a sorting goes up; equal ones keep their order, and none comes twice.
pub proof fn law_rankings_go_down(
    scores: Seq<usize>,
    ranking: Seq<usize>,
    keys: Seq<Seq<char>>,
    sorting: Seq<usize>,
    i: int,
    j: int,
)
    ensures
        is_ranking(scores, ranking) && 0 <= i < j < ranking.len() ==> scores[ranking[i] as int]
            >= scores[ranking[j] as int] && (scores[ranking[i] as int] == scores[ranking[j] as int]
            ==> ranking[i] < ranking[j]),
        is_sorting(keys, sorting) && 0 <= i < j < sorting.len() ==> !text::precedes(
            keys[sorting[j] as int],
            keys[sorting[i] as int],
        ) && (keys[sorting[i] as int] == keys[sorting[j] as int] ==> sorting[i] < sorting[j]),
{
    if is_ranking(scores, ranking) && 0 <= i < j < ranking.len() {
        assert(ranks_before(scores, ranking[i] as int, ranking[j] as int));
    }
    if is_sorting(keys, sorting) && 0 <= i < j < sorting.len() {
        assert(reads_before(keys, sorting[i] as int, sorting[j] as int));
        text::lemma_precedes_total(keys[sorting[i] as int], keys[sorting[j] as int]);
        text::lemma_precedes_irreflexive(keys[sorting[i] as int]);
    }
}

} // verus!
