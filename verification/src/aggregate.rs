//! The aggregator: frequency counts of field values, a stable top-N
//! ranking, parent-name grouping by longest prefix, and the colour-legend
//! indices of the startup summary.
//!
//! Counting trims each value first and keeps first-occurrence order; the
//! ranking sorts by count alone, descending, stably, so ties keep that
//! order. Every table is derived once from the loaded collections.

use vstd::prelude::*;

use crate::correlate::{distinct_seq, views_of};
use crate::model::{AssembliesRoot, DrivesRoot};
use crate::text::{trim, trim_of};

verus! {

/// Each value of a list, trimmed.
pub open spec fn trimmed(vs: Seq<Seq<char>>) -> Seq<Seq<char>> {
    vs.map_values(|v: Seq<char>| trim_of(v))
}

/// How often `x` occurs in `s`.
pub open spec fn occ(s: Seq<Seq<char>>, x: Seq<char>) -> nat
    decreases s.len(),
{
    if s.len() == 0 {
        0
    } else {
        occ(s.drop_last(), x) + if s.last() == x {
            1nat
        } else {
            0nat
        }
    }
}

/// The distinct values of `s`, each at its first occurrence, in order.
pub open spec fn firsts(s: Seq<Seq<char>>) -> Seq<Seq<char>>
    decreases s.len(),
{
    if s.len() == 0 {
        Seq::empty()
    } else {
        let f = firsts(s.drop_last());
        if f.contains(s.last()) {
            f
        } else {
            f.push(s.last())
        }
    }
}

/// The counting table of a value list: every distinct value in
/// first-occurrence order, paired with how often it occurs.
pub open spec fn count_table(tv: Seq<Seq<char>>) -> Seq<(Seq<char>, int)> {
    Seq::new(firsts(tv).len(), |i: int| (firsts(tv)[i], occ(tv, firsts(tv)[i]) as int))
}

/// The view of a key/count list.
pub open spec fn pair_views(s: Seq<(String, usize)>) -> Seq<(Seq<char>, int)> {
    s.map_values(|p: (String, usize)| (p.0@, p.1 as int))
}

pub proof fn lemma_firsts_contains(s: Seq<Seq<char>>, x: Seq<char>)
    ensures
        firsts(s).contains(x) <==> s.contains(x),
    decreases s.len(),
{
    if s.len() > 0 {
        lemma_firsts_contains(s.drop_last(), x);
        let f = firsts(s.drop_last());
        if s.contains(x) {
            let k = choose|k: int| 0 <= k < s.len() && s[k] == x;
            if k < s.len() - 1 {
                assert(s.drop_last()[k] == x);
                assert(s.drop_last().contains(x));
            } else {
                assert(x == s.last());
            }
            if !f.contains(s.last()) {
                assert(f.push(s.last())[f.len() as int] == s.last());
                assert(f.push(s.last()).contains(s.last()));
                if f.contains(x) {
                    let m = choose|m: int| 0 <= m < f.len() && f[m] == x;
                    assert(f.push(s.last())[m] == x);
                }
            }
        }
        if firsts(s).contains(x) {
            if f.contains(s.last()) {
                assert(s.drop_last().contains(x));
                let k = choose|k: int| 0 <= k < s.drop_last().len() && s.drop_last()[k] == x;
                assert(s[k] == x);
            } else {
                let m = choose|m: int| 0 <= m < f.push(s.last()).len() && f.push(s.last())[m] == x;
                if m < f.len() {
                    assert(f[m] == x);
                    assert(f.contains(x));
                    let k = choose|k: int|
                        0 <= k < s.drop_last().len() && s.drop_last()[k] == x;
                    assert(s[k] == x);
                } else {
                    assert(x == s.last());
                    assert(s[s.len() - 1] == x);
                }
            }
        }
    }
}

pub proof fn lemma_firsts_distinct(s: Seq<Seq<char>>)
    ensures
        distinct_seq(firsts(s)),
    decreases s.len(),
{
    if s.len() > 0 {
        lemma_firsts_distinct(s.drop_last());
        let f = firsts(s.drop_last());
        if !f.contains(s.last()) {
            assert forall|i: int, j: int| 0 <= i < j < f.push(s.last()).len() implies f.push(
                s.last(),
            )[i] != f.push(s.last())[j] by {
                if j == f.len() {
                    assert(f.push(s.last())[i] == f[i]);
                    assert(f[i] != s.last());
                }
            }
        }
    }
}

pub proof fn lemma_occ_zero(s: Seq<Seq<char>>, x: Seq<char>)
    ensures
        occ(s, x) == 0 <==> !s.contains(x),
    decreases s.len(),
{
    if s.len() > 0 {
        lemma_occ_zero(s.drop_last(), x);
        if s.last() != x && s.contains(x) {
            let k = choose|k: int| 0 <= k < s.len() && s[k] == x;
            assert(s.drop_last()[k] == x);
        }
        if s.drop_last().contains(x) {
            let k = choose|k: int| 0 <= k < s.drop_last().len() && s.drop_last()[k] == x;
            assert(s[k] == x);
        }
    }
}

pub proof fn lemma_occ_le_len(s: Seq<Seq<char>>, x: Seq<char>)
    ensures
        occ(s, x) <= s.len(),
    decreases s.len(),
{
    if s.len() > 0 {
        lemma_occ_le_len(s.drop_last(), x);
    }
}

proof fn lemma_occ_take_step(s: Seq<Seq<char>>, x: Seq<char>, i: int)
    requires
        0 <= i < s.len(),
    ensures
        occ(s.take(i + 1), x) == occ(s.take(i), x) + if s[i] == x {
            1int
        } else {
            0int
        },
{
    assert(s.take(i + 1).drop_last() =~= s.take(i));
    assert(s.take(i + 1).last() == s[i]);
}

proof fn lemma_firsts_take_step(s: Seq<Seq<char>>, i: int)
    requires
        0 <= i < s.len(),
    ensures
        firsts(s.take(i + 1)) == if firsts(s.take(i)).contains(s[i]) {
            firsts(s.take(i))
        } else {
            firsts(s.take(i)).push(s[i])
        },
{
    assert(s.take(i + 1).drop_last() =~= s.take(i));
    assert(s.take(i + 1).last() == s[i]);
}

/// The position of this key in the table, if it was counted before.
fn find_key(acc: &Vec<(String, usize)>, key: &String) -> (r: Option<usize>)
    ensures
        match r {
            Some(j) => 0 <= j < acc@.len() && acc@[j as int].0@ == key@,
            None => forall|k: int| 0 <= k < acc@.len() ==> acc@[k].0@ != key@,
        },
{
    let n = acc.len();
    let mut i: usize = 0;
    while i < n
        invariant
            0 <= i <= n,
            n == acc@.len(),
            forall|k: int| 0 <= k < i ==> acc@[k].0@ != key@,
        decreases n - i,
    {
        if acc[i].0 == *key {
            return Some(i);
        }
        i += 1;
    }
    None
}

/// Count how often each trimmed value occurs, keys in first-occurrence
/// order.
#[verifier::loop_isolation(false)]
pub fn count_trimmed(values: &Vec<String>) -> (r: Vec<(String, usize)>)
    ensures
        pair_views(r@) == count_table(trimmed(views_of(values@))),
{
    let ghost tv = trimmed(views_of(values@));
    let mut acc: Vec<(String, usize)> = Vec::new();
    proof {
        assert(tv.take(0) =~= Seq::<Seq<char>>::empty());
        assert(pair_views(acc@) =~= count_table(tv.take(0)));
    }
    let n = values.len();
    let mut i: usize = 0;
    while i < n
        invariant
            0 <= i <= n,
            n == values@.len(),
            tv.len() == n,
            pair_views(acc@) == count_table(tv.take(i as int)),
        decreases n - i,
    {
        let t = crate::text::to_owned_str(trim(values[i].as_str()));
        proof {
            assert(tv[i as int] == trim_of(views_of(values@)[i as int]));
            assert(views_of(values@)[i as int] == values@[i as int]@);
            lemma_firsts_take_step(tv, i as int);
            lemma_firsts_distinct(tv.take(i as int));
            lemma_firsts_contains(tv.take(i as int), tv[i as int]);
            lemma_occ_zero(tv.take(i as int), tv[i as int]);
            assert(pair_views(acc@).len() == acc@.len());
            assert forall|k: int| 0 <= k < acc@.len() implies acc@[k].0@ == firsts(
                tv.take(i as int),
            )[k] by {
                assert(pair_views(acc@)[k] == count_table(tv.take(i as int))[k]);
            }
        }
        match find_key(&acc, &t) {
            Some(j) => {
                proof {
                    assert(firsts(tv.take(i as int))[j as int] == tv[i as int]);
                    assert(firsts(tv.take(i as int)).contains(tv[i as int]));
                    lemma_occ_le_len(tv.take(i as int), tv[i as int]);
                }
                let ghost acc0 = acc@;
                let pair = acc.remove(j);
                proof {
                    assert(pair == acc0[j as int]);
                    assert(pair_views(acc0)[j as int] == count_table(tv.take(i as int))[j as int]);
                    assert(pair.1 as int == occ(tv.take(i as int), tv[i as int]) as int);
                    assert(pair.1 as int <= i as int);
                }
                acc.insert(j, (pair.0, pair.1 + 1));
                proof {
                    assert(acc@ =~= acc0.update(j as int, (pair.0, (pair.1 + 1) as usize)));
                    let f = firsts(tv.take(i as int));
                    lemma_occ_take_step(tv, tv[i as int], i as int);
                    assert(firsts(tv.take(i as int + 1)) == f);
                    assert forall|k: int| 0 <= k < f.len() implies pair_views(acc@)[k]
                        == count_table(tv.take(i as int + 1))[k] by {
                        if k != j as int {
                            if k < j as int {
                                assert(f[k] != f[j as int]);
                            } else {
                                assert(f[j as int] != f[k]);
                            }
                            lemma_occ_take_step(tv, f[k], i as int);
                            assert(acc@[k] == acc0[k]);
                            assert(pair_views(acc0)[k] == count_table(tv.take(i as int))[k]);
                        } else {
                            assert(acc@[k] == (pair.0, (pair.1 + 1) as usize));
                        }
                    }
                    assert(pair_views(acc@) =~= count_table(tv.take(i as int + 1)));
                }
            },
            None => {
                proof {
                    assert(!firsts(tv.take(i as int)).contains(tv[i as int]));
                    assert(!tv.take(i as int).contains(tv[i as int]));
                }
                let ghost acc0 = acc@;
                acc.push((t, 1));
                proof {
                    let f = firsts(tv.take(i as int));
                    lemma_occ_take_step(tv, tv[i as int], i as int);
                    assert(firsts(tv.take(i as int + 1)) == f.push(tv[i as int]));
                    assert(occ(tv.take(i as int), tv[i as int]) == 0);
                    assert forall|k: int| 0 <= k < f.len() + 1 implies pair_views(acc@)[k]
                        == count_table(tv.take(i as int + 1))[k] by {
                        if k < f.len() {
                            assert(f.push(tv[i as int])[k] == f[k]);
                            assert(f[k] != tv[i as int]);
                            lemma_occ_take_step(tv, f[k], i as int);
                            assert(acc@[k] == acc0[k]);
                            assert(pair_views(acc0)[k] == count_table(tv.take(i as int))[k]);
                        } else {
                            assert(f.push(tv[i as int])[k] == tv[i as int]);
                            assert(acc@[k] == (t, 1usize));
                            assert(t@ == tv[i as int]);
                        }
                    }
                    assert(pair_views(acc@) =~= count_table(tv.take(i as int + 1)));
                }
            },
        }
        i += 1;
    }
    proof {
        assert(tv.take(n as int) =~= tv);
    }
    acc
}

/// Insert a pair into a count-sorted list: strictly larger counts go in
/// front, equal counts go behind, so earlier keys keep their place.
pub open spec fn vinsert_desc(
    x: (Seq<char>, int),
    s: Seq<(Seq<char>, int)>,
) -> Seq<(Seq<char>, int)>
    decreases s.len(),
{
    if s.len() == 0 {
        seq![x]
    } else if x.1 > s[0].1 {
        seq![x] + s
    } else {
        seq![s[0]] + vinsert_desc(x, s.drop_first())
    }
}

/// Stable sort by count, descending: ties keep first-occurrence order.
pub open spec fn vsort_desc(s: Seq<(Seq<char>, int)>) -> Seq<(Seq<char>, int)>
    decreases s.len(),
{
    if s.len() == 0 {
        Seq::empty()
    } else {
        vinsert_desc(s.last(), vsort_desc(s.drop_last()))
    }
}

/// Counts never increase along the list.
pub open spec fn sorted_desc_by_count(s: Seq<(Seq<char>, int)>) -> bool {
    forall|i: int, j: int| 0 <= i <= j < s.len() ==> s[i].1 >= s[j].1
}

proof fn lemma_vinsert_at(x: (Seq<char>, int), s: Seq<(Seq<char>, int)>, j: int)
    requires
        0 <= j <= s.len(),
        forall|k: int| 0 <= k < j ==> s[k].1 >= x.1,
        j < s.len() ==> x.1 > s[j].1,
    ensures
        vinsert_desc(x, s) == s.take(j) + seq![x] + s.skip(j),
    decreases j,
{
    if s.len() == 0 {
        assert(vinsert_desc(x, s) =~= s.take(0) + seq![x] + s.skip(0));
    } else if j == 0 {
        assert(vinsert_desc(x, s) == seq![x] + s);
        assert(seq![x] + s =~= s.take(0) + seq![x] + s.skip(0));
    } else {
        assert(s[0].1 >= x.1);
        assert forall|k: int| 0 <= k < j - 1 implies s.drop_first()[k].1 >= x.1 by {
            assert(s.drop_first()[k] == s[k + 1]);
        }
        assert(j - 1 < s.drop_first().len() ==> x.1 > s.drop_first()[j - 1].1);
        lemma_vinsert_at(x, s.drop_first(), j - 1);
        assert(seq![s[0]] + (s.drop_first().take(j - 1) + seq![x] + s.drop_first().skip(j - 1))
            =~= s.take(j) + seq![x] + s.skip(j));
    }
}

pub proof fn lemma_vinsert_len(x: (Seq<char>, int), s: Seq<(Seq<char>, int)>)
    ensures
        vinsert_desc(x, s).len() == s.len() + 1,
    decreases s.len(),
{
    if s.len() > 0 && !(x.1 > s[0].1) {
        lemma_vinsert_len(x, s.drop_first());
    }
}

/// Sorting keeps the table's length.
pub proof fn lemma_vsort_len(s: Seq<(Seq<char>, int)>)
    ensures
        vsort_desc(s).len() == s.len(),
    decreases s.len(),
{
    if s.len() > 0 {
        lemma_vsort_len(s.drop_last());
        lemma_vinsert_len(s.last(), vsort_desc(s.drop_last()));
    }
}

proof fn lemma_vsort_take_step(s: Seq<(Seq<char>, int)>, i: int)
    requires
        0 <= i < s.len(),
    ensures
        vsort_desc(s.take(i + 1)) == vinsert_desc(s[i], vsort_desc(s.take(i))),
{
    assert(s.take(i + 1).drop_last() =~= s.take(i));
    assert(s.take(i + 1).last() == s[i]);
}

proof fn lemma_vinsert_sorted(x: (Seq<char>, int), s: Seq<(Seq<char>, int)>)
    requires
        sorted_desc_by_count(s),
    ensures
        sorted_desc_by_count(vinsert_desc(x, s)),
        forall|k: int|
            0 <= k < vinsert_desc(x, s).len() ==> vinsert_desc(x, s)[k] == x || s.contains(
                #[trigger] vinsert_desc(x, s)[k],
            ),
    decreases s.len(),
{
    let r = vinsert_desc(x, s);
    if s.len() == 0 {
    } else if x.1 > s[0].1 {
        assert forall|i: int, j: int| 0 <= i <= j < r.len() implies r[i].1 >= r[j].1 by {
            if i > 0 {
                assert(r[i] == s[i - 1]);
                assert(r[j] == s[j - 1]);
            } else if j > 0 {
                assert(r[j] == s[j - 1]);
                assert(s[0].1 >= s[j - 1].1);
            }
        }
        assert forall|k: int| 0 <= k < r.len() implies r[k] == x || s.contains(#[trigger] r[k]) by {
            if k > 0 {
                assert(r[k] == s[k - 1]);
            }
        }
    } else {
        assert forall|i: int, j: int| 0 <= i <= j < s.drop_first().len() implies s.drop_first()[i].1
            >= s.drop_first()[j].1 by {
            assert(s.drop_first()[i] == s[i + 1]);
            assert(s.drop_first()[j] == s[j + 1]);
        }
        lemma_vinsert_sorted(x, s.drop_first());
        let inner = vinsert_desc(x, s.drop_first());
        assert forall|k: int| 0 <= k < r.len() implies r[k] == x || s.contains(#[trigger] r[k]) by {
            if k == 0 {
                assert(r[0] == s[0]);
            } else {
                assert(r[k] == inner[k - 1]);
                if inner[k - 1] != x {
                    assert(s.drop_first().contains(inner[k - 1]));
                    let m = choose|m: int|
                        0 <= m < s.drop_first().len() && s.drop_first()[m] == inner[k - 1];
                    assert(s[m + 1] == inner[k - 1]);
                }
            }
        }
        assert forall|i: int, j: int| 0 <= i <= j < r.len() implies r[i].1 >= r[j].1 by {
            if i == 0 && j > 0 {
                assert(r[j] == inner[j - 1]);
                if inner[j - 1] == x {
                    assert(s[0].1 >= x.1);
                } else {
                    assert(s.drop_first().contains(inner[j - 1]));
                    let m = choose|m: int|
                        0 <= m < s.drop_first().len() && s.drop_first()[m] == inner[j - 1];
                    assert(s.drop_first()[m] == s[m + 1]);
                    assert(s[0].1 >= s[m + 1].1);
                }
            } else if i > 0 {
                assert(r[i] == inner[i - 1]);
                assert(r[j] == inner[j - 1]);
            }
        }
    }
}

/// The ranking really ranks: counts never increase along a sorted table.
pub proof fn lemma_vsort_sorted(s: Seq<(Seq<char>, int)>)
    ensures
        sorted_desc_by_count(vsort_desc(s)),
    decreases s.len(),
{
    if s.len() > 0 {
        lemma_vsort_sorted(s.drop_last());
        lemma_vinsert_sorted(s.last(), vsort_desc(s.drop_last()));
    }
}

proof fn lemma_vinsert_multiset(x: (Seq<char>, int), s: Seq<(Seq<char>, int)>)
    ensures
        vinsert_desc(x, s).to_multiset() =~= s.to_multiset().insert(x),
    decreases s.len(),
{
    broadcast use vstd::seq_lib::group_to_multiset_ensures;
    broadcast use vstd::seq_lib::lemma_multiset_commutative;
    broadcast use vstd::multiset::group_multiset_axioms;

    if s.len() == 0 {
        assert(seq![x] =~= Seq::<(Seq<char>, int)>::empty().push(x));
    } else if x.1 > s[0].1 {
        assert((seq![x] + s).to_multiset() =~= seq![x].to_multiset().add(s.to_multiset()));
        assert(seq![x] =~= Seq::<(Seq<char>, int)>::empty().push(x));
    } else {
        lemma_vinsert_multiset(x, s.drop_first());
        let inner = vinsert_desc(x, s.drop_first());
        assert((seq![s[0]] + inner).to_multiset() =~= seq![s[0]].to_multiset().add(
            inner.to_multiset(),
        ));
        assert(s =~= seq![s[0]] + s.drop_first());
        assert(s.to_multiset() =~= seq![s[0]].to_multiset().add(s.drop_first().to_multiset()));
    }
}

/// The ranking is a permutation: the sorted table holds exactly the pairs
/// of the counting table, each as often as there.
pub proof fn lemma_vsort_permutes(s: Seq<(Seq<char>, int)>)
    ensures
        vsort_desc(s).to_multiset() =~= s.to_multiset(),
    decreases s.len(),
{
    broadcast use vstd::seq_lib::group_to_multiset_ensures;

    if s.len() > 0 {
        lemma_vsort_permutes(s.drop_last());
        lemma_vinsert_multiset(s.last(), vsort_desc(s.drop_last()));
        assert(s =~= s.drop_last().push(s.last()));
    }
}

/// Insert one pair into an already count-sorted list, keeping it sorted and
/// placing it behind its equals.
#[verifier::loop_isolation(false)]
fn insert_by_count_desc(v: &mut Vec<(String, usize)>, x: (String, usize))
    ensures
        pair_views(final(v)@) == vinsert_desc((x.0@, x.1 as int), pair_views(old(v)@)),
{
    let n = v.len();
    let mut j: usize = 0;
    while j < n && v[j].1 >= x.1
        invariant
            0 <= j <= n,
            n == v@.len(),
            forall|k: int| 0 <= k < j ==> v@[k].1 >= x.1,
        decreases n - j,
    {
        j += 1;
    }
    proof {
        let vv = pair_views(v@);
        assert forall|k: int| 0 <= k < j implies vv[k].1 >= x.1 as int by {
            assert(vv[k] == (v@[k].0@, v@[k].1 as int));
        }
        assert(j < n ==> x.1 as int > vv[j as int].1);
        lemma_vinsert_at((x.0@, x.1 as int), vv, j as int);
    }
    let ghost v0 = v@;
    v.insert(j, x);
    proof {
        assert(v@ == v0.insert(j as int, x));
        assert(pair_views(v@) =~= pair_views(v0).take(j as int) + seq![(x.0@, x.1 as int)]
            + pair_views(v0).skip(j as int));
    }
}

/// Sort a counting table by count, descending, stably: ties keep the
/// first-occurrence order of the table.
#[verifier::loop_isolation(false)]
pub fn sort_by_count_desc(counts: &Vec<(String, usize)>) -> (r: Vec<(String, usize)>)
    ensures
        pair_views(r@) == vsort_desc(pair_views(counts@)),
{
    let mut out: Vec<(String, usize)> = Vec::new();
    proof {
        assert(pair_views(counts@).take(0) =~= Seq::<(Seq<char>, int)>::empty());
        assert(pair_views(out@) =~= Seq::<(Seq<char>, int)>::empty());
    }
    let n = counts.len();
    let mut i: usize = 0;
    while i < n
        invariant
            0 <= i <= n,
            n == counts@.len(),
            pair_views(out@) == vsort_desc(pair_views(counts@).take(i as int)),
        decreases n - i,
    {
        proof {
            lemma_vsort_take_step(pair_views(counts@), i as int);
            assert(pair_views(counts@)[i as int] == (counts@[i as int].0@, counts@[i as int].1 as int));
        }
        let x = (counts[i].0.clone(), counts[i].1);
        insert_by_count_desc(&mut out, x);
        i += 1;
    }
    proof {
        assert(pair_views(counts@).take(n as int) =~= pair_views(counts@));
    }
    out
}

/// The first `n` pairs of the ranking: the `n` highest counts, ties broken
/// by first-occurrence order.
#[verifier::loop_isolation(false)]
pub fn top_n(counts: &Vec<(String, usize)>, n: usize) -> (r: Vec<(String, usize)>)
    ensures
        pair_views(r@) == vsort_desc(pair_views(counts@)).take(
            if n <= counts@.len() {
                n as int
            } else {
                counts@.len() as int
            },
        ),
{
    let sorted = sort_by_count_desc(counts);
    proof {
        lemma_vsort_len(pair_views(counts@));
    }
    let m = if n <= sorted.len() {
        n
    } else {
        sorted.len()
    };
    let mut r: Vec<(String, usize)> = Vec::new();
    let mut i: usize = 0;
    while i < m
        invariant
            0 <= i <= m,
            m <= sorted@.len(),
            pair_views(r@) == pair_views(sorted@).take(i as int),
        decreases m - i,
    {
        r.push((sorted[i].0.clone(), sorted[i].1));
        proof {
            assert(pair_views(r@) =~= pair_views(sorted@).take(i as int + 1));
        }
        i += 1;
    }
    proof {
        assert(pair_views(sorted@).take(m as int) == vsort_desc(pair_views(counts@)).take(m as int));
    }
    r
}

/// `p` is a strictly shorter prefix of `n`.
pub open spec fn proper_prefix_of(p: Seq<char>, n: Seq<char>) -> bool {
    p.len() < n.len() && p == n.take(p.len() as int)
}

/// The parent a manufacturer name rolls up under, against a reference set:
/// the longest reference name that is a proper prefix of it, or the name
/// itself when no reference name is.
pub open spec fn is_parent_choice(name: Seq<char>, ps: Seq<Seq<char>>, r: Seq<char>) -> bool {
    if exists|k: int| 0 <= k < ps.len() && proper_prefix_of(#[trigger] ps[k], name) {
        ps.contains(r) && proper_prefix_of(r, name) && (forall|k: int|
            0 <= k < ps.len() && proper_prefix_of(#[trigger] ps[k], name) ==> ps[k].len()
                <= r.len())
    } else {
        r == name
    }
}

/// Is `p` a strictly shorter prefix of `n`?
#[verifier::loop_isolation(false)]
pub fn is_proper_prefix(p: &str, n: &str) -> (r: bool)
    ensures
        r == proper_prefix_of(p@, n@),
{
    let pl = p.unicode_len();
    let nl = n.unicode_len();
    if pl >= nl {
        return false;
    }
    let mut i: usize = 0;
    while i < pl
        invariant
            0 <= i <= pl,
            pl == p@.len(),
            nl == n@.len(),
            pl < nl,
            forall|k: int| 0 <= k < i ==> p@[k] == n@[k],
        decreases pl - i,
    {
        if p.get_char(i) != n.get_char(i) {
            proof {
                assert(n@.take(pl as int)[i as int] == n@[i as int]);
            }
            return false;
        }
        i += 1;
    }
    proof {
        assert(p@ =~= n@.take(pl as int));
    }
    true
}

/// The parent of one manufacturer name: the longest reference name that is
/// a proper prefix of it, deterministically, or the name itself.
#[verifier::loop_isolation(false)]
pub fn get_parent_manufacturer_name(name: &str, parent_names: &Vec<String>) -> (r: String)
    ensures
        is_parent_choice(name@, views_of(parent_names@), r@),
{
    let n = parent_names.len();
    let mut best: Option<usize> = None;
    let mut i: usize = 0;
    while i < n
        invariant
            0 <= i <= n,
            n == parent_names@.len(),
            match best {
                Some(b) => 0 <= b < i && proper_prefix_of(parent_names@[b as int]@, name@)
                    && forall|k: int|
                    0 <= k < i && proper_prefix_of(#[trigger] parent_names@[k]@, name@)
                        ==> parent_names@[k]@.len() <= parent_names@[b as int]@.len(),
                None => forall|k: int|
                    0 <= k < i ==> !proper_prefix_of(#[trigger] parent_names@[k]@, name@),
            },
        decreases n - i,
    {
        if is_proper_prefix(parent_names[i].as_str(), name) {
            match best {
                Some(b) => {
                    if parent_names[i].as_str().unicode_len() > parent_names[b].as_str().unicode_len() {
                        best = Some(i);
                    }
                },
                None => {
                    best = Some(i);
                },
            }
        }
        i += 1;
    }
    match best {
        Some(b) => {
            let r = parent_names[b].clone();
            proof {
                assert(views_of(parent_names@)[b as int] == parent_names@[b as int]@);
                assert(views_of(parent_names@).contains(r@));
                assert forall|k: int|
                    0 <= k < views_of(parent_names@).len() && proper_prefix_of(
                        #[trigger] views_of(parent_names@)[k],
                        name@,
                    ) implies views_of(parent_names@)[k].len() <= r@.len() by {
                    assert(views_of(parent_names@)[k] == parent_names@[k]@);
                }
            }
            r
        },
        None => {
            proof {
                assert forall|k: int| 0 <= k < views_of(parent_names@).len() implies !proper_prefix_of(
                    #[trigger] views_of(parent_names@)[k],
                    name@,
                ) by {
                    assert(views_of(parent_names@)[k] == parent_names@[k]@);
                }
            }
            crate::text::to_owned_str(name)
        },
    }
}

/// Give each name a colour index, cycling through a palette of 12.
pub fn assign_colors(names: &Vec<String>) -> (r: Vec<(String, usize)>)
    ensures
        r@.len() == names@.len(),
        forall|i: int|
            0 <= i < r@.len() ==> (#[trigger] r@[i]).0@ == names@[i]@ && r@[i].1 as int == i % 12,
{
    let n = names.len();
    let mut r: Vec<(String, usize)> = Vec::new();
    let mut i: usize = 0;
    while i < n
        invariant
            0 <= i <= n,
            n == names@.len(),
            r@.len() == i,
            forall|k: int|
                0 <= k < i ==> (#[trigger] r@[k]).0@ == names@[k]@ && r@[k].1 as int == k % 12,
        decreases n - i,
    {
        r.push((names[i].clone(), i % 12));
        i += 1;
    }
    r
}

/// Give each name a pastel colour index, cycling through a palette of 6.
pub fn assign_pastel_colors(names: &Vec<String>) -> (r: Vec<(String, usize)>)
    ensures
        r@.len() == names@.len(),
        forall|i: int|
            0 <= i < r@.len() ==> (#[trigger] r@[i]).0@ == names@[i]@ && r@[i].1 as int == i % 6,
{
    let n = names.len();
    let mut r: Vec<(String, usize)> = Vec::new();
    let mut i: usize = 0;
    while i < n
        invariant
            0 <= i <= n,
            n == names@.len(),
            r@.len() == i,
            forall|k: int|
                0 <= k < i ==> (#[trigger] r@[k]).0@ == names@[k]@ && r@[k].1 as int == k % 6,
        decreases n - i,
    {
        r.push((names[i].clone(), i % 6));
        i += 1;
    }
    r
}

/// How many distinct values (untrimmed) the list holds.
#[verifier::loop_isolation(false)]
pub fn count_distinct(values: &Vec<String>) -> (r: usize)
    ensures
        r as int == firsts(views_of(values@)).len(),
{
    let ghost vs = views_of(values@);
    let mut seen: Vec<String> = Vec::new();
    proof {
        assert(vs.take(0) =~= Seq::<Seq<char>>::empty());
        assert(views_of(seen@) =~= firsts(vs.take(0)));
    }
    let n = values.len();
    let mut i: usize = 0;
    while i < n
        invariant
            0 <= i <= n,
            n == values@.len(),
            vs.len() == n,
            views_of(seen@) == firsts(vs.take(i as int)),
        decreases n - i,
    {
        proof {
            lemma_firsts_take_step(vs, i as int);
            assert(vs[i as int] == values@[i as int]@);
        }
        if !crate::correlate::vec_contains_str(&seen, &values[i]) {
            seen.push(values[i].clone());
            proof {
                assert(views_of(seen@) =~= firsts(vs.take(i as int)).push(vs[i as int]));
            }
        }
        i += 1;
    }
    proof {
        assert(vs.take(n as int) =~= vs);
    }
    seen.len()
}

/// The manufacturer field of every drive, in collection order.
pub open spec fn manufacturer_views(ds: Seq<crate::model::Drive>) -> Seq<Seq<char>> {
    ds.map_values(|d: crate::model::Drive| d.drive_manufacturer@)
}

/// The builder field of every assembly, in collection order.
pub open spec fn builder_views(ms: Seq<crate::model::Assembly>) -> Seq<Seq<char>> {
    ms.map_values(|a: crate::model::Assembly| a.built_by@)
}

/// The enclosure serial of every drive, in collection order.
pub open spec fn enclosure_views(ds: Seq<crate::model::Drive>) -> Seq<Seq<char>> {
    ds.map_values(|d: crate::model::Drive| d.enclosure_sn@)
}

/// The manufacturer counting table, ranked by count.
pub open spec fn ranked_manufacturers(ds: Seq<crate::model::Drive>) -> Seq<(Seq<char>, int)> {
    vsort_desc(count_table(trimmed(manufacturer_views(ds))))
}

/// The builder counting table, ranked by count.
pub open spec fn ranked_builders(ms: Seq<crate::model::Assembly>) -> Seq<(Seq<char>, int)> {
    vsort_desc(count_table(trimmed(builder_views(ms))))
}

/// The keys of a counting table.
pub open spec fn keys_of(s: Seq<(Seq<char>, int)>) -> Seq<Seq<char>> {
    s.map_values(|p: (Seq<char>, int)| p.0)
}

pub open spec fn spec_min(a: int, b: int) -> int {
    if a <= b {
        a
    } else {
        b
    }
}

fn manufacturer_values(drives: &DrivesRoot) -> (r: Vec<String>)
    ensures
        views_of(r@) == manufacturer_views(drives.drive@),
{
    let n = drives.drive.len();
    let mut r: Vec<String> = Vec::new();
    let mut i: usize = 0;
    while i < n
        invariant
            0 <= i <= n,
            n == drives.drive@.len(),
            r@.len() == i,
            forall|k: int| 0 <= k < i ==> (#[trigger] r@[k])@ == drives.drive@[k].drive_manufacturer@,
        decreases n - i,
    {
        r.push(drives.drive[i].drive_manufacturer.clone());
        i += 1;
    }
    proof {
        assert(views_of(r@) =~= manufacturer_views(drives.drive@));
    }
    r
}

fn builder_values(assemblies: &AssembliesRoot) -> (r: Vec<String>)
    ensures
        views_of(r@) == builder_views(assemblies.asms@),
{
    let n = assemblies.asms.len();
    let mut r: Vec<String> = Vec::new();
    let mut i: usize = 0;
    while i < n
        invariant
            0 <= i <= n,
            n == assemblies.asms@.len(),
            r@.len() == i,
            forall|k: int| 0 <= k < i ==> (#[trigger] r@[k])@ == assemblies.asms@[k].built_by@,
        decreases n - i,
    {
        r.push(assemblies.asms[i].built_by.clone());
        i += 1;
    }
    proof {
        assert(views_of(r@) =~= builder_views(assemblies.asms@));
    }
    r
}

fn enclosure_values(drives: &DrivesRoot) -> (r: Vec<String>)
    ensures
        views_of(r@) == enclosure_views(drives.drive@),
{
    let n = drives.drive.len();
    let mut r: Vec<String> = Vec::new();
    let mut i: usize = 0;
    while i < n
        invariant
            0 <= i <= n,
            n == drives.drive@.len(),
            r@.len() == i,
            forall|k: int| 0 <= k < i ==> (#[trigger] r@[k])@ == drives.drive@[k].enclosure_sn@,
        decreases n - i,
    {
        r.push(drives.drive[i].enclosure_sn.clone());
        i += 1;
    }
    proof {
        assert(views_of(r@) =~= enclosure_views(drives.drive@));
    }
    r
}

/// The first `n` pairs of a counting table, cloned.
#[verifier::loop_isolation(false)]
fn prefix_pairs(v: &Vec<(String, usize)>, n: usize) -> (r: Vec<(String, usize)>)
    ensures
        pair_views(r@) == pair_views(v@).take(spec_min(n as int, v@.len() as int)),
{
    let m = if n <= v.len() {
        n
    } else {
        v.len()
    };
    let mut r: Vec<(String, usize)> = Vec::new();
    proof {
        assert(pair_views(r@) =~= pair_views(v@).take(0));
    }
    let mut i: usize = 0;
    while i < m
        invariant
            0 <= i <= m,
            m <= v@.len(),
            pair_views(r@) == pair_views(v@).take(i as int),
        decreases m - i,
    {
        r.push((v[i].0.clone(), v[i].1));
        proof {
            assert(pair_views(r@) =~= pair_views(v@).take(i as int + 1));
        }
        i += 1;
    }
    r
}

/// The first `n` keys of a counting table, cloned.
#[verifier::loop_isolation(false)]
fn prefix_keys(v: &Vec<(String, usize)>, n: usize) -> (r: Vec<String>)
    ensures
        views_of(r@) == keys_of(pair_views(v@)).take(spec_min(n as int, v@.len() as int)),
{
    let m = if n <= v.len() {
        n
    } else {
        v.len()
    };
    let mut r: Vec<String> = Vec::new();
    proof {
        assert(views_of(r@) =~= keys_of(pair_views(v@)).take(0));
    }
    let mut i: usize = 0;
    while i < m
        invariant
            0 <= i <= m,
            m <= v@.len(),
            views_of(r@) == keys_of(pair_views(v@)).take(i as int),
        decreases m - i,
    {
        r.push(v[i].0.clone());
        proof {
            assert(views_of(r@) =~= keys_of(pair_views(v@)).take(i as int + 1));
        }
        i += 1;
    }
    r
}

/// The tables the startup screen shows, all derived once after load.
#[derive(Debug)]
pub struct StartupSummary {
    /// How many distinct trimmed manufacturer names occur.
    pub unique_manufacturers: usize,
    /// How many distinct trimmed builder names occur.
    pub unique_builders: usize,
    /// How many distinct enclosure serials occur.
    pub unique_enclosures: usize,
    /// The 15 most frequent manufacturers with their counts, rank order.
    pub top_manufacturers: Vec<(String, usize)>,
    /// The 15 most frequent builders with their counts, rank order.
    pub top_builders: Vec<(String, usize)>,
    /// Every counted manufacturer, in rank order, with its parent name.
    pub manufacturer_parents: Vec<(String, String)>,
    /// The top-10 reference names with their colour indices (palette of 12).
    pub parent_colors: Vec<(String, usize)>,
    /// The top-15 builder names with their pastel indices (palette of 6).
    pub builder_colors: Vec<(String, usize)>,
}

/// Derive the whole startup summary from the loaded collections.
#[verifier::loop_isolation(false)]
pub fn build_summary(assemblies: &AssembliesRoot, drives: &DrivesRoot) -> (s: StartupSummary)
    ensures
        s.unique_manufacturers as int == firsts(trimmed(manufacturer_views(drives.drive@))).len(),
        s.unique_builders as int == firsts(trimmed(builder_views(assemblies.asms@))).len(),
        s.unique_enclosures as int == firsts(enclosure_views(drives.drive@)).len(),
        pair_views(s.top_manufacturers@) == ranked_manufacturers(drives.drive@).take(
            spec_min(15, ranked_manufacturers(drives.drive@).len() as int),
        ),
        pair_views(s.top_builders@) == ranked_builders(assemblies.asms@).take(
            spec_min(15, ranked_builders(assemblies.asms@).len() as int),
        ),
        s.manufacturer_parents@.len() == ranked_manufacturers(drives.drive@).len(),
        forall|i: int|
            0 <= i < s.manufacturer_parents@.len() ==> {
                let rm = ranked_manufacturers(drives.drive@);
                (#[trigger] s.manufacturer_parents@[i]).0@ == rm[i].0 && is_parent_choice(
                    rm[i].0,
                    keys_of(rm).take(spec_min(10, rm.len() as int)),
                    s.manufacturer_parents@[i].1@,
                )
            },
        s.parent_colors@.len() == spec_min(10, ranked_manufacturers(drives.drive@).len() as int),
        forall|i: int|
            0 <= i < s.parent_colors@.len() ==> (#[trigger] s.parent_colors@[i]).0@
                == ranked_manufacturers(drives.drive@)[i].0 && s.parent_colors@[i].1 as int == i
                % 12,
        s.builder_colors@.len() == spec_min(15, ranked_builders(assemblies.asms@).len() as int),
        forall|i: int|
            0 <= i < s.builder_colors@.len() ==> (#[trigger] s.builder_colors@[i]).0@
                == ranked_builders(assemblies.asms@)[i].0 && s.builder_colors@[i].1 as int == i % 6,
{
    let ghost rm = ranked_manufacturers(drives.drive@);
    let ghost rb = ranked_builders(assemblies.asms@);

    let mans = manufacturer_values(drives);
    let man_counts = count_trimmed(&mans);
    let man_sorted = sort_by_count_desc(&man_counts);
    proof {
        lemma_vsort_len(pair_views(man_counts@));
        assert(pair_views(man_sorted@) == rm);
    }
    let top_manufacturers = prefix_pairs(&man_sorted, 15);
    let refs = prefix_keys(&man_sorted, 10);

    let mut manufacturer_parents: Vec<(String, String)> = Vec::new();
    let nm = man_sorted.len();
    let mut i: usize = 0;
    while i < nm
        invariant
            0 <= i <= nm,
            nm == man_sorted@.len(),
            manufacturer_parents@.len() == i,
            forall|k: int|
                0 <= k < i ==> (#[trigger] manufacturer_parents@[k]).0@ == rm[k].0
                    && is_parent_choice(
                    rm[k].0,
                    keys_of(rm).take(spec_min(10, rm.len() as int)),
                    manufacturer_parents@[k].1@,
                ),
        decreases nm - i,
    {
        proof {
            assert(pair_views(man_sorted@)[i as int] == (man_sorted@[i as int].0@, man_sorted@[i as int].1 as int));
        }
        let parent = get_parent_manufacturer_name(man_sorted[i].0.as_str(), &refs);
        manufacturer_parents.push((man_sorted[i].0.clone(), parent));
        i += 1;
    }

    let parent_colors = assign_colors(&refs);
    proof {
        assert(views_of(refs@).len() == refs@.len());
        assert(refs@.len() == spec_min(10, rm.len() as int));
        assert forall|k: int| 0 <= k < refs@.len() implies refs@[k]@ == rm[k].0 by {
            assert(k < rm.len());
            assert(views_of(refs@)[k] == refs@[k]@);
            assert(views_of(refs@)[k] == keys_of(rm).take(spec_min(10, rm.len() as int))[k]);
            assert(keys_of(rm).take(spec_min(10, rm.len() as int))[k] == keys_of(rm)[k]);
            assert(keys_of(rm)[k] == rm[k].0);
        }
    }

    let blds = builder_values(assemblies);
    let bld_counts = count_trimmed(&blds);
    let bld_sorted = sort_by_count_desc(&bld_counts);
    proof {
        lemma_vsort_len(pair_views(bld_counts@));
        assert(pair_views(bld_sorted@) == rb);
    }
    let top_builders = prefix_pairs(&bld_sorted, 15);
    let bld_names = prefix_keys(&bld_sorted, 15);
    let builder_colors = assign_pastel_colors(&bld_names);
    proof {
        assert(views_of(bld_names@).len() == bld_names@.len());
        assert(bld_names@.len() == spec_min(15, rb.len() as int));
        assert forall|k: int| 0 <= k < bld_names@.len() implies bld_names@[k]@ == rb[k].0 by {
            assert(k < rb.len());
            assert(views_of(bld_names@)[k] == bld_names@[k]@);
            assert(views_of(bld_names@)[k] == keys_of(rb).take(spec_min(15, rb.len() as int))[k]);
            assert(keys_of(rb).take(spec_min(15, rb.len() as int))[k] == keys_of(rb)[k]);
            assert(keys_of(rb)[k] == rb[k].0);
        }
    }

    let encl = enclosure_values(drives);
    let unique_enclosures = count_distinct(&encl);
    proof {
        assert(pair_views(man_counts@).len() == man_counts@.len());
        assert(pair_views(bld_counts@).len() == bld_counts@.len());
    }

    StartupSummary {
        unique_manufacturers: man_counts.len(),
        unique_builders: bld_counts.len(),
        unique_enclosures,
        top_manufacturers,
        top_builders,
        manufacturer_parents,
        parent_colors,
        builder_colors,
    }
}

} // verus!
