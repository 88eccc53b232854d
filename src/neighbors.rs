use vstd::prelude::*;

use crate::labels::{lemma_lex_irreflexive, lemma_lex_transitive, lex_lt, ClassLabel};

verus! {

/// Training row `a` comes before training row `b` in the neighbour order: a
/// smaller distance key, or the same key and an earlier row.
pub open spec fn before(d: Seq<u64>, a: int, b: int) -> bool {
    d[a] < d[b] || (d[a] == d[b] && a < b)
}

/// The smaller of `k` and `n`.
pub open spec fn min_nat(k: nat, n: nat) -> nat {
    if k < n {
        k
    } else {
        n
    }
}

/// `r` lists the `min(k, n)` nearest training rows, nearest first: distinct
/// rows in neighbour order, each before every row left out.
pub open spec fn nearest_post(d: Seq<u64>, k: nat, r: Seq<usize>) -> bool {
    &&& r.len() == min_nat(k, d.len())
    &&& forall|x: int| 0 <= x < r.len() ==> #[trigger] r[x] < d.len()
    &&& forall|x: int, y: int| 0 <= x < y < r.len() ==> before(d, #[trigger] r[x] as int, #[trigger] r[y] as int)
    &&& forall|x: int, i: usize|
        0 <= x < r.len() && i < d.len() && !r.contains(i) ==> #[trigger] before(d, r[x] as int, i as int)
}

/// The `min(k, n)` training rows nearest to a query, nearest first, given one
/// distance key per training row (a smaller key is a smaller distance). Equal
/// keys keep the rows' order.
pub fn nearest(distances: &Vec<u64>, k: usize) -> (r: Vec<usize>)
    ensures
        nearest_post(distances@, k as nat, r@),
{
    let ghost d = distances@;
    let n = distances.len();
    let mut order: Vec<usize> = Vec::with_capacity(n);
    let mut i: usize = 0;
    while i < n
        invariant
            n == d.len(),
            d == distances@,
            i <= n,
            order@.len() == i,
            forall|x: int| 0 <= x < order@.len() ==> #[trigger] order@[x] < i,
            forall|j: usize| j < i ==> #[trigger] order@.contains(j),
            forall|x: int, y: int|
                0 <= x < y < order@.len() ==> before(d, #[trigger] order@[x] as int, #[trigger] order@[y] as int),
        decreases n - i,
    {
        let mut p: usize = 0;
        while p < order.len() && distances[order[p]] <= distances[i]
            invariant
                n == d.len(),
                d == distances@,
                i < n,
                p <= order@.len(),
                forall|x: int| 0 <= x < order@.len() ==> #[trigger] order@[x] < i,
                forall|x: int| 0 <= x < p ==> before(d, #[trigger] order@[x] as int, i as int),
            decreases order@.len() - p,
        {
            p = p + 1;
        }
        let ghost old_order = order@;
        proof {
            assert forall|y: int| p <= y < old_order.len() implies before(d, i as int, #[trigger] old_order[y] as int) by {
                assert(before(d, i as int, old_order[p as int] as int));
                if y > p {
                    assert(before(d, old_order[p as int] as int, old_order[y] as int));
                }
            }
        }
        order.insert(p, i);
        proof {
            let o = order@;
            assert(o.len() == old_order.len() + 1);
            assert forall|x: int| 0 <= x < o.len() implies o[x] == (if x < p {
                old_order[x]
            } else if x == p {
                i
            } else {
                old_order[x - 1]
            }) by {
                old_order.insert_ensures(p as int, i);
            }
            assert forall|j: usize| j < i + 1 implies #[trigger] o.contains(j) by {
                if j == i {
                    assert(o[p as int] == i);
                } else {
                    assert(old_order.contains(j));
                    let x = choose|x: int| 0 <= x < old_order.len() && old_order[x] == j;
                    if x < p {
                        assert(o[x] == j);
                    } else {
                        assert(o[x + 1] == j);
                    }
                }
            }
        }
        i = i + 1;
    }
    let m = if k < n {
        k
    } else {
        n
    };
    let mut r: Vec<usize> = Vec::with_capacity(m);
    let mut x: usize = 0;
    while x < m
        invariant
            m <= n,
            n == order@.len(),
            x <= m,
            r@ == order@.subrange(0, x as int),
        decreases m - x,
    {
        r.push(order[x]);
        x = x + 1;
    }
    proof {
        assert forall|x: int, j: usize|
            0 <= x < r@.len() && j < d.len() && !r@.contains(j) implies #[trigger] before(
            d,
            r@[x] as int,
            j as int,
        ) by {
            assert(order@.contains(j));
            let y = choose|y: int| 0 <= y < order@.len() && order@[y] == j;
            if y < m {
                assert(r@[y] == j);
            } else {
                assert(before(d, order@[x] as int, order@[y] as int));
            }
        }
    }
    r
}

/// With three neighbours, three training rows that are each strictly nearer
/// than every other row are exactly the rows chosen, whatever their order.
pub proof fn lemma_three_strictly_nearest(d: Seq<u64>, nbrs: Seq<usize>, b1: usize, b2: usize, b3: usize)
    requires
        b1 < d.len(),
        b2 < d.len(),
        b3 < d.len(),
        b1 != b2,
        b1 != b3,
        b2 != b3,
        forall|i: int|
            0 <= i < d.len() && i != b1 && i != b2 && i != b3 ==> d[b1 as int] < #[trigger] d[i] && d[b2 as int]
                < d[i] && d[b3 as int] < d[i],
        nearest_post(d, 3, nbrs),
    ensures
        nbrs.len() == 3,
        nbrs.contains(b1),
        nbrs.contains(b2),
        nbrs.contains(b3),
{
    assert(nbrs.len() == 3);
    assert forall|x: int, y: int| 0 <= x < y < 3 implies nbrs[x] != nbrs[y] by {
        assert(before(d, nbrs[x] as int, nbrs[y] as int));
    }
    lemma_chosen(d, nbrs, b1, b2, b3);
    lemma_chosen(d, nbrs, b2, b1, b3);
    lemma_chosen(d, nbrs, b3, b1, b2);
}

proof fn lemma_chosen(d: Seq<u64>, nbrs: Seq<usize>, b: usize, c1: usize, c2: usize)
    requires
        b < d.len(),
        c1 < d.len(),
        c2 < d.len(),
        b != c1,
        b != c2,
        c1 != c2,
        forall|i: int|
            0 <= i < d.len() && i != b && i != c1 && i != c2 ==> d[b as int] < #[trigger] d[i],
        nearest_post(d, 3, nbrs),
        forall|x: int, y: int| 0 <= x < y < 3 ==> nbrs[x] != nbrs[y],
    ensures
        nbrs.contains(b),
{
    if !nbrs.contains(b) {
        assert forall|x: int| 0 <= x < 3 implies nbrs[x] == c1 || nbrs[x] == c2 by {
            assert(before(d, nbrs[x] as int, b as int));
            assert(nbrs[x] != b);
        }
        assert(nbrs[0] == c1 || nbrs[0] == c2);
        assert(nbrs[1] == c1 || nbrs[1] == c2);
        assert(nbrs[2] == c1 || nbrs[2] == c2);
        assert(nbrs[0] != nbrs[1] && nbrs[0] != nbrs[2] && nbrs[1] != nbrs[2]);
        assert(false);
    }
}

/// The keys of a sequence of labels.
pub open spec fn label_keys<U: ClassLabel>(v: Seq<U>) -> Seq<Seq<int>> {
    v.map_values(|u: U| u.key())
}

/// Keys strictly increasing: sorted and without repeats.
pub open spec fn strictly_sorted(s: Seq<Seq<int>>) -> bool {
    forall|x: int, y: int| 0 <= x < y < s.len() ==> lex_lt(#[trigger] s[x], #[trigger] s[y])
}

/// The distinct labels of `labels`, smallest first.
pub fn sorted_classes<U: ClassLabel>(labels: &Vec<U>) -> (r: Vec<U>)
    ensures
        strictly_sorted(label_keys(r@)),
        forall|i: int| 0 <= i < labels@.len() ==> label_keys(r@).contains(#[trigger] labels@[i].key()),
        forall|c: int| 0 <= c < r@.len() ==> label_keys(labels@).contains(#[trigger] r@[c].key()),
{
    let mut classes: Vec<U> = Vec::new();
    let mut i: usize = 0;
    while i < labels.len()
        invariant
            i <= labels@.len(),
            strictly_sorted(label_keys(classes@)),
            forall|j: int| 0 <= j < i ==> label_keys(classes@).contains(#[trigger] labels@[j].key()),
            forall|c: int| 0 <= c < classes@.len() ==> label_keys(labels@).contains(#[trigger] classes@[c].key()),
        decreases labels@.len() - i,
    {
        let ghost ks = label_keys(classes@);
        let ghost key = labels@[i as int].key();
        let mut p: usize = 0;
        let mut found = false;
        while p < classes.len()
            invariant_except_break
                !found,
            invariant
                p <= classes@.len(),
                i < labels@.len(),
                ks == label_keys(classes@),
                key == labels@[i as int].key(),
                forall|x: int| 0 <= x < p ==> lex_lt(#[trigger] ks[x], key),
            ensures
                p <= classes@.len(),
                forall|x: int| 0 <= x < p ==> lex_lt(#[trigger] ks[x], key),
                found ==> p < classes@.len() && ks[p as int] == key,
                !found ==> p == classes@.len() || lex_lt(key, ks[p as int]),
            decreases classes@.len() - p,
        {
            let c = labels[i].compare(&classes[p]);
            if c == 0 {
                found = true;
                break;
            }
            if c < 0 {
                break;
            }
            p = p + 1;
        }
        if !found {
            let ghost old_classes = classes@;
            proof {
                assert forall|y: int| p <= y < ks.len() implies lex_lt(key, #[trigger] ks[y]) by {
                    if y > p {
                        lemma_lex_transitive(key, ks[p as int], ks[y]);
                    }
                }
            }
            let u = labels[i].duplicate();
            classes.insert(p, u);
            proof {
                let nk = label_keys(classes@);
                old_classes.insert_ensures(p as int, u);
                assert forall|x: int| 0 <= x < nk.len() implies nk[x] == (if x < p {
                    ks[x]
                } else if x == p {
                    key
                } else {
                    ks[x - 1]
                }) by {}
                assert forall|x: int, y: int| 0 <= x < y < nk.len() implies lex_lt(#[trigger] nk[x], #[trigger] nk[y]) by {
                    if x < p && y == p {
                    } else if x < p && y > p {
                        lemma_lex_transitive(nk[x], key, nk[y]);
                    } else if x == p {
                    } else {
                    }
                }
                assert forall|j: int| 0 <= j < i + 1 implies nk.contains(#[trigger] labels@[j].key()) by {
                    if j == i {
                        assert(nk[p as int] == key);
                    } else {
                        let x = choose|x: int| 0 <= x < ks.len() && ks[x] == labels@[j].key();
                        if x < p {
                            assert(nk[x] == ks[x]);
                        } else {
                            assert(nk[x + 1] == ks[x]);
                        }
                    }
                }
                assert forall|c: int| 0 <= c < classes@.len() implies label_keys(labels@).contains(
                    #[trigger] classes@[c].key(),
                ) by {
                    if c == p {
                        assert(label_keys(labels@)[i as int] == key);
                    } else if c < p {
                        assert(classes@[c] == old_classes[c]);
                    } else {
                        assert(classes@[c] == old_classes[c - 1]);
                    }
                }
            }
        } else {
            proof {
                assert(ks[p as int] == key);
            }
        }
        i = i + 1;
    }
    classes
}

/// The number of neighbours in `nbrs` whose label key is `key`.
pub open spec fn votes_for(keys: Seq<Seq<int>>, nbrs: Seq<usize>, key: Seq<int>) -> nat
    decreases nbrs.len(),
{
    if nbrs.len() == 0 {
        0
    } else {
        votes_for(keys, nbrs.drop_last(), key) + if keys[nbrs.last() as int] == key {
            1nat
        } else {
            0nat
        }
    }
}

/// For each class, how many of the neighbours `nbrs` carry its label.
pub fn vote_counts<U: ClassLabel>(classes: &Vec<U>, labels: &Vec<U>, nbrs: &Vec<usize>) -> (r: Vec<u64>)
    requires
        forall|x: int| 0 <= x < nbrs@.len() ==> #[trigger] nbrs@[x] < labels@.len(),
    ensures
        r@.len() == classes@.len(),
        forall|c: int|
            0 <= c < classes@.len() ==> #[trigger] r@[c] == votes_for(
                label_keys(labels@),
                nbrs@,
                classes@[c].key(),
            ),
{
    let ghost keys = label_keys(labels@);
    let mut r: Vec<u64> = Vec::with_capacity(classes.len());
    let mut c: usize = 0;
    while c < classes.len()
        invariant
            c <= classes@.len(),
            r@.len() == c,
            keys == label_keys(labels@),
            forall|x: int| 0 <= x < nbrs@.len() ==> #[trigger] nbrs@[x] < labels@.len(),
            forall|c2: int| 0 <= c2 < c ==> #[trigger] r@[c2] == votes_for(keys, nbrs@, classes@[c2].key()),
        decreases classes@.len() - c,
    {
        let mut count: u64 = 0;
        let mut x: usize = 0;
        while x < nbrs.len()
            invariant
                x <= nbrs@.len(),
                c < classes@.len(),
                keys == label_keys(labels@),
                forall|y: int| 0 <= y < nbrs@.len() ==> #[trigger] nbrs@[y] < labels@.len(),
                count == votes_for(keys, nbrs@.subrange(0, x as int), classes@[c as int].key()),
                count <= x,
            decreases nbrs@.len() - x,
        {
            proof {
                assert(nbrs@.subrange(0, x + 1).drop_last() =~= nbrs@.subrange(0, x as int));
            }
            if labels[nbrs[x]].compare(&classes[c]) == 0 {
                count = count + 1;
            }
            x = x + 1;
        }
        proof {
            assert(nbrs@.subrange(0, nbrs@.len() as int) =~= nbrs@);
        }
        r.push(count);
        c = c + 1;
    }
    r
}

/// The first position holding the largest vote.
pub fn decide(votes: &Vec<u64>) -> (r: usize)
    requires
        votes@.len() > 0,
    ensures
        r < votes@.len(),
        forall|c: int| 0 <= c < votes@.len() ==> #[trigger] votes@[c] <= votes@[r as int],
        forall|c: int| 0 <= c < r ==> #[trigger] votes@[c] < votes@[r as int],
{
    let mut best: usize = 0;
    let mut c: usize = 1;
    while c < votes.len()
        invariant
            1 <= c <= votes@.len(),
            best < c,
            forall|x: int| 0 <= x < c ==> #[trigger] votes@[x] <= votes@[best as int],
            forall|x: int| 0 <= x < best ==> #[trigger] votes@[x] < votes@[best as int],
        decreases votes@.len() - c,
    {
        if votes[c] > votes[best] {
            best = c;
        }
        c = c + 1;
    }
    best
}

/// The votes of all classes in `classes`, added up.
pub open spec fn sum_votes(keys: Seq<Seq<int>>, nbrs: Seq<usize>, classes: Seq<Seq<int>>) -> nat
    decreases classes.len(),
{
    if classes.len() == 0 {
        0
    } else {
        sum_votes(keys, nbrs, classes.drop_last()) + votes_for(keys, nbrs, classes.last())
    }
}

/// The sum of a row of numbers.
pub open spec fn row_total(row: Seq<u64>) -> int
    decreases row.len(),
{
    if row.len() == 0 {
        0
    } else {
        row_total(row.drop_last()) + row.last()
    }
}

proof fn lemma_sum_votes_push(keys: Seq<Seq<int>>, nbrs: Seq<usize>, x: usize, classes: Seq<Seq<int>>)
    requires
        classes.no_duplicates(),
    ensures
        sum_votes(keys, nbrs.push(x), classes) == sum_votes(keys, nbrs, classes) + if classes.contains(
            keys[x as int],
        ) {
            1nat
        } else {
            0nat
        },
    decreases classes.len(),
{
    if classes.len() > 0 {
        let rest = classes.drop_last();
        assert(rest.no_duplicates());
        lemma_sum_votes_push(keys, nbrs, x, rest);
        assert(nbrs.push(x).drop_last() =~= nbrs);
        if rest.contains(keys[x as int]) {
            let k = choose|k: int| 0 <= k < rest.len() && rest[k] == keys[x as int];
            assert(classes[k] == rest[k]);
            assert(classes.last() != keys[x as int]);
        }
        if classes.last() == keys[x as int] {
            assert(classes.contains(keys[x as int]));
        } else if classes.contains(keys[x as int]) {
            let k = choose|k: int| 0 <= k < classes.len() && classes[k] == keys[x as int];
            assert(rest[k] == classes[k]);
        }
    }
}

/// Where every neighbour's label is one of `classes`, and the classes are
/// distinct, the classes' votes add up to the number of neighbours.
pub proof fn lemma_votes_total(keys: Seq<Seq<int>>, nbrs: Seq<usize>, classes: Seq<Seq<int>>)
    requires
        classes.no_duplicates(),
        forall|x: int| 0 <= x < nbrs.len() ==> classes.contains(keys[#[trigger] nbrs[x] as int]),
    ensures
        sum_votes(keys, nbrs, classes) == nbrs.len(),
    decreases nbrs.len(),
{
    if nbrs.len() == 0 {
        lemma_sum_votes_empty(keys, nbrs, classes);
    } else {
        let rest = nbrs.drop_last();
        assert forall|x: int| 0 <= x < rest.len() implies classes.contains(keys[#[trigger] rest[x] as int]) by {
            assert(rest[x] == nbrs[x]);
        }
        lemma_votes_total(keys, rest, classes);
        assert(rest.push(nbrs.last()) =~= nbrs);
        lemma_sum_votes_push(keys, rest, nbrs.last(), classes);
        assert(classes.contains(keys[nbrs[nbrs.len() - 1] as int]));
    }
}

proof fn lemma_sum_votes_empty(keys: Seq<Seq<int>>, nbrs: Seq<usize>, classes: Seq<Seq<int>>)
    requires
        nbrs.len() == 0,
    ensures
        sum_votes(keys, nbrs, classes) == 0,
    decreases classes.len(),
{
    if classes.len() > 0 {
        lemma_sum_votes_empty(keys, nbrs, classes.drop_last());
    }
}

/// A row holding each class's votes adds up to the classes' votes.
pub proof fn lemma_row_total(row: Seq<u64>, keys: Seq<Seq<int>>, nbrs: Seq<usize>, classes: Seq<Seq<int>>)
    requires
        row.len() == classes.len(),
        forall|c: int| 0 <= c < row.len() ==> #[trigger] row[c] == votes_for(keys, nbrs, classes[c]),
    ensures
        row_total(row) == sum_votes(keys, nbrs, classes),
    decreases row.len(),
{
    if row.len() > 0 {
        let r2 = row.drop_last();
        let c2 = classes.drop_last();
        assert forall|c: int| 0 <= c < r2.len() implies #[trigger] r2[c] == votes_for(keys, nbrs, c2[c]) by {
            assert(r2[c] == row[c]);
        }
        lemma_row_total(r2, keys, nbrs, c2);
        assert(row[row.len() - 1] == votes_for(keys, nbrs, classes[classes.len() - 1]));
    }
}

/// Strictly increasing keys have no repeats.
pub proof fn lemma_sorted_distinct(s: Seq<Seq<int>>)
    requires
        strictly_sorted(s),
    ensures
        s.no_duplicates(),
{
    assert forall|x: int, y: int| 0 <= x < s.len() && 0 <= y < s.len() && x != y implies s[x] != s[y] by {
        if x < y {
            assert(lex_lt(s[x], s[y]));
            lemma_lex_irreflexive(s[x]);
        } else {
            assert(lex_lt(s[y], s[x]));
            lemma_lex_irreflexive(s[y]);
        }
    }
}

} // verus!
