use linear_map::LinearMap;
use vstd::prelude::*;

use crate::crossover::{Crossover, CrossoverError};
use crate::random::random_in;
use crate::utility::{
    all_distinct, is_permutation_of, is_permutation_pair, lawful_eq,
    lemma_distinct_within_is_permutation, permutation_pair, position_in,
};

verus! {

#[verifier::external_type_specification]
#[verifier::external_body]
#[verifier::reject_recursive_types(K)]
#[verifier::reject_recursive_types(V)]
pub struct ExLinearMap<K, V>(LinearMap<K, V>);

/// A table of neighbours, keyed by gene place.
pub type Table = LinearMap<usize, Vec<usize>>;

/// What an adjacency table holds: for each gene (by its place in the first parent), the
/// genes next to it.
pub uninterp spec fn table_view(m: LinearMap<usize, Vec<usize>>) -> Map<usize, Seq<usize>>;

/// Relies on `LinearMap::with_capacity`: a map without entries.
#[verifier::external_body]
fn table_with_capacity(capacity: usize) -> (r: Table)
    ensures
        table_view(r) =~= Map::empty(),
{
    LinearMap::with_capacity(capacity)
}

/// Relies on `LinearMap::insert`: `key` now maps to `value`; the other entries stay.
#[verifier::external_body]
fn table_insert(m: &mut LinearMap<usize, Vec<usize>>, key: usize, value: Vec<usize>)
    ensures
        table_view(*final(m)) == table_view(*old(m)).insert(key, value@),
{
    m.insert(key, value);
}

/// Relies on `LinearMap::remove`: the entry of `key` leaves the map and its value comes back.
#[verifier::external_body]
fn table_remove(m: &mut LinearMap<usize, Vec<usize>>, key: usize) -> (r: Option<Vec<usize>>)
    ensures
        table_view(*final(m)) == table_view(*old(m)).remove(key),
        table_view(*old(m)).contains_key(key) ==> (r matches Some(v) && v@ == table_view(
            *old(m),
        )[key]),
        !table_view(*old(m)).contains_key(key) ==> r is None,
{
    m.remove(&key)
}

/// Relies on `LinearMap::get`: a copy of the value of `key`, if the map holds one.
#[verifier::external_body]
fn table_get(m: &Table, key: usize) -> (r: Option<Vec<usize>>)
    ensures
        r is Some <==> table_view(*m).contains_key(key),
        r matches Some(v) ==> v@ == table_view(*m)[key],
{
    m.get(&key).cloned()
}

/// Relies on `LinearMap::keys`: every key of the map, each once.
#[verifier::external_body]
fn table_keys(m: &LinearMap<usize, Vec<usize>>) -> (r: Vec<usize>)
    ensures
        r@.no_duplicates(),
        forall|k: usize| r@.contains(k) <==> table_view(*m).contains_key(k),
{
    m.keys().cloned().collect()
}

/// The least second component among the pairs of `s` (zero for no pair).
pub open spec fn least_count(s: Seq<(usize, usize)>) -> usize
    decreases s.len(),
{
    if s.len() == 0 {
        0
    } else if s.len() == 1 {
        s[0].1
    } else {
        let rest = least_count(s.drop_last());
        if s.last().1 < rest {
            s.last().1
        } else {
            rest
        }
    }
}

/// Relies on itertools' `Itertools::min_set_by_key`: all the pairs whose second component is
/// least, in their order.
#[verifier::external_body]
fn fewest_neighbors(pairs: Vec<(usize, usize)>) -> (r: Vec<(usize, usize)>)
    ensures
        r@ == pairs@.filter(|p: (usize, usize)| p.1 == least_count(pairs@)),
{
    itertools::Itertools::min_set_by_key(pairs.into_iter(), |p: &(usize, usize)| p.1)
}

proof fn lemma_least_count(s: Seq<(usize, usize)>)
    requires
        s.len() > 0,
    ensures
        exists|i: int| 0 <= i < s.len() && s[i].1 == least_count(s),
        forall|i: int| 0 <= i < s.len() ==> least_count(s) <= (#[trigger] s[i]).1,
    decreases s.len(),
{
    if s.len() == 1 {
        assert(s[0].1 == least_count(s));
    } else {
        lemma_least_count(s.drop_last());
        let rest = s.drop_last();
        assert forall|i: int| 0 <= i < s.len() implies least_count(s) <= (#[trigger] s[i]).1 by {
            if i < s.len() - 1 {
                assert(rest[i] == s[i]);
            }
        }
        if s.last().1 >= least_count(rest) {
            let i = choose|i: int| 0 <= i < rest.len() && rest[i].1 == least_count(rest);
            assert(s[i] == rest[i]);
            assert(s[i].1 == least_count(s));
        } else {
            assert(s[s.len() - 1].1 == least_count(s));
        }
    }
}

/// Edge recombination (ER): a child starts at a random gene and moves each time to the
/// remaining neighbour (in either parent's cyclic tour) that has the fewest remaining
/// neighbours, ties broken at random, or to a random unused gene when none remains.
#[derive(Clone, Copy, Debug)]
pub struct EdgeRecombination;

impl EdgeRecombination {
    pub fn new() -> Self {
        EdgeRecombination
    }
}

/// The place before `index` in `parent`'s cyclic tour.
pub open spec fn before(len: int, index: int) -> int {
    if index == 0 {
        len - 1
    } else {
        index - 1
    }
}

/// The place after `index` in `parent`'s cyclic tour.
pub open spec fn after(len: int, index: int) -> int {
    if index == len - 1 {
        0
    } else {
        index + 1
    }
}

/// The genes before and after the place `index` in `parent`'s cyclic tour, where the last
/// gene and the first are neighbours.
pub fn neighbors<T: Copy>(parent: &Vec<T>, index: usize) -> (r: (T, T))
    requires
        parent@.len() >= 2,
        index < parent@.len(),
    ensures
        r.0 == parent@[before(parent@.len() as int, index as int)],
        r.1 == parent@[after(parent@.len() as int, index as int)],
{
    let last = parent.len() - 1;
    if index == 0 {
        (parent[last], parent[index + 1])
    } else if index == last {
        (parent[index - 1], parent[0])
    } else {
        (parent[index - 1], parent[index + 1])
    }
}

/// Every gene of every row is itself a key of the table.
pub open spec fn rows_within(t: Map<usize, Seq<usize>>) -> bool {
    forall|k: usize, i: int|
        #![trigger t[k][i]]
        t.contains_key(k) && 0 <= i < t[k].len() ==> t.contains_key(t[k][i])
}

/// The table has exactly the keys `0..n`.
pub open spec fn keys_below(t: Map<usize, Seq<usize>>, n: nat) -> bool {
    forall|k: usize| #[trigger] t.contains_key(k) <==> k < n
}

/// `x` is next to `k` in the cyclic tour `tour`.
pub open spec fn next_in_tour(tour: Seq<usize>, k: usize, x: usize) -> bool {
    exists|i: int|
        0 <= i < tour.len() && tour[i] == k && (x == tour[before(tour.len() as int, i)] || x
            == tour[after(tour.len() as int, i)])
}

/// The table of neighbours of two tours of the places `0..n`: the first tour is `0, 1, ...`
/// and the second `parent2`; the row of each place holds exactly its neighbours in either
/// tour.
pub fn adjacency_matrix(parent1: &Vec<usize>, parent2: &Vec<usize>) -> (r: Table)
    requires
        parent1@.len() == parent2@.len() >= 2,
        forall|i: int| 0 <= i < parent1@.len() ==> parent1@[i] == i,
        forall|i: int| 0 <= i < parent2@.len() ==> parent2@[i] < parent2@.len(),
    ensures
        keys_below(table_view(r), parent1@.len()),
        rows_within(table_view(r)),
        forall|k: usize| k < parent1@.len() ==> (#[trigger] table_view(r)[k]).no_duplicates(),
        forall|k: usize, x: usize|
            k < parent1@.len() ==> (#[trigger] table_view(r)[k].contains(x) <==> next_in_tour(
                parent1@,
                k,
                x,
            ) || next_in_tour(parent2@, k, x)),
{
    let length = parent1.len();
    let mut table = table_with_capacity(length);
    let mut i: usize = 0;
    while i < length
        invariant
            i <= length == parent1@.len() == parent2@.len(),
            length >= 2,
            forall|j: int| 0 <= j < length ==> parent1@[j] == j,
            forall|k: usize| #[trigger] table_view(table).contains_key(k) <==> k < i,
            forall|k: usize, j: int|
                #![trigger table_view(table)[k][j]]
                table_view(table).contains_key(k) && 0 <= j < table_view(table)[k].len()
                    ==> table_view(table)[k][j] < length,
            forall|k: usize, x: usize|
                k < i ==> (#[trigger] table_view(table)[k].contains(x) <==> next_in_tour(
                    parent1@,
                    k,
                    x,
                )),
            forall|k: usize| k < i ==> (#[trigger] table_view(table)[k]).no_duplicates(),
        decreases length - i,
    {
        let n = neighbors(parent1, i);
        let mut row: Vec<usize> = Vec::with_capacity(2);
        row.push(n.0);
        let ghost r0 = row@;
        proof {
            assert(r0[0] == n.0);
            assert forall|y: usize| #[trigger] r0.contains(y) <==> y == n.0 by {
                if r0.contains(y) {
                    let j = choose|j: int| 0 <= j < r0.len() && r0[j] == y;
                }
            }
        }
        push_absent(&mut row, n.1);
        proof {
            assert forall|j: int| 0 <= j < row@.len() implies row@[j] < length by {
                assert(row@.contains(row@[j]));
            }
        }
        table_insert(&mut table, parent1[i], row);
        proof {
            let k = i;
            assert forall|x: usize| #[trigger] table_view(table)[k].contains(x) <==> next_in_tour(
                parent1@,
                k,
                x,
            ) by {
                let t = table_view(table)[k];
                if t.contains(x) {
                    assert(x == n.0 || x == n.1);
                    assert(parent1@[i as int] == k);
                }
                if next_in_tour(parent1@, k, x) {
                    let j = choose|j: int|
                        0 <= j < parent1@.len() && parent1@[j] == k && (x == parent1@[before(
                            parent1@.len() as int,
                            j,
                        )] || x == parent1@[after(parent1@.len() as int, j)]);
                    assert(j == i);
                    assert(r0.contains(x) || x == n.1);
                    assert(t.contains(x));
                }
            }
        }
        i = i + 1;
    }
    let mut i: usize = 0;
    while i < length
        invariant
            i <= length == parent1@.len() == parent2@.len(),
            length >= 2,
            forall|j: int| 0 <= j < length ==> parent2@[j] < length,
            forall|k: usize| #[trigger] table_view(table).contains_key(k) <==> k < length,
            forall|k: usize, j: int|
                #![trigger table_view(table)[k][j]]
                table_view(table).contains_key(k) && 0 <= j < table_view(table)[k].len()
                    ==> table_view(table)[k][j] < length,
            forall|k: usize, x: usize|
                k < length ==> (#[trigger] table_view(table)[k].contains(x) <==> next_in_tour(
                    parent1@,
                    k,
                    x,
                )
                    || next_in_prefix(parent2@, i as int, k, x)),
            forall|k: usize| k < length ==> (#[trigger] table_view(table)[k]).no_duplicates(),
        decreases length - i,
    {
        let n = neighbors(parent2, i);
        let gene = parent2[i];
        let ghost before_table = table_view(table);
        let mut row = table_remove(&mut table, gene).unwrap();
        let ghost old_row = row@;
        push_absent(&mut row, n.0);
        push_absent(&mut row, n.1);
        proof {
            assert forall|j: int| 0 <= j < row@.len() implies row@[j] < length by {
                assert(row@.contains(row@[j]));
                if old_row.contains(row@[j]) {
                    let m = choose|m: int| 0 <= m < old_row.len() && old_row[m] == row@[j];
                    assert(before_table[gene][m] < length);
                }
            }
        }
        table_insert(&mut table, gene, row);
        proof {
            assert(table_view(table).contains_key(gene));
            assert forall|k: usize| k < length implies (#[trigger] table_view(table)[k]).no_duplicates() by {
                if k != gene {
                    assert(table_view(table)[k] == before_table[k]);
                }
            }
            assert forall|k: usize, x: usize|
                k < length implies (#[trigger] table_view(table)[k].contains(x) <==> next_in_tour(
                parent1@,
                k,
                x,
            ) || next_in_prefix(
                parent2@,
                i + 1,
                k,
                x,
            )) by {
                lemma_next_in_prefix_step(parent2@, i as int, k, x);
                if k != gene {
                    assert(table_view(table)[k] == before_table[k]);
                }
            }
        }
        i = i + 1;
    }
    proof {
        assert forall|k: usize, x: usize|
            k < parent1@.len() implies (#[trigger] table_view(table)[k].contains(x) <==> next_in_tour(
            parent1@,
            k,
            x,
        ) || next_in_tour(parent2@, k, x)) by {
            assert(next_in_prefix(parent2@, length as int, k, x) == next_in_tour(parent2@, k, x));
        }
        assert forall|k: usize, j: int|
            #![trigger table_view(table)[k][j]]
            table_view(table).contains_key(k) && 0 <= j < table_view(table)[k].len()
                implies table_view(table).contains_key(table_view(table)[k][j]) by {}
    }
    table
}

/// `x` is next to `k` in the cyclic tour `tour`, at one of its first `m` places.
pub open spec fn next_in_prefix(tour: Seq<usize>, m: int, k: usize, x: usize) -> bool {
    exists|i: int|
        0 <= i < m && i < tour.len() && tour[i] == k && (x == tour[before(tour.len() as int, i)]
            || x == tour[after(tour.len() as int, i)])
}

proof fn lemma_next_in_prefix_step(tour: Seq<usize>, m: int, k: usize, x: usize)
    requires
        0 <= m < tour.len(),
    ensures
        next_in_prefix(tour, m + 1, k, x) <==> next_in_prefix(tour, m, k, x) || (tour[m] == k && (x
            == tour[before(tour.len() as int, m)] || x == tour[after(tour.len() as int, m)])),
{
    if next_in_prefix(tour, m + 1, k, x) && !(tour[m] == k && (x == tour[before(
        tour.len() as int,
        m,
    )] || x == tour[after(tour.len() as int, m)])) {
        let i = choose|i: int|
            0 <= i < m + 1 && i < tour.len() && tour[i] == k && (x == tour[before(
                tour.len() as int,
                i,
            )] || x == tour[after(tour.len() as int, i)]);
        assert(i < m);
    }
}

/// Appends `x` to `row` unless `row` already holds it.
fn push_absent(row: &mut Vec<usize>, x: usize)
    ensures
        forall|y: usize| #[trigger] final(row)@.contains(y) <==> old(row)@.contains(y) || y == x,
        old(row)@.no_duplicates() ==> final(row)@.no_duplicates(),
{
    if !contains_place(row, x) {
        let ghost before = row@;
        row.push(x);
        proof {
            assert forall|y: usize| #[trigger] row@.contains(y) <==> before.contains(y) || y == x by {
                if row@.contains(y) {
                    let j = choose|j: int| 0 <= j < row@.len() && row@[j] == y;
                    if j < before.len() {
                        assert(before[j] == y);
                    }
                }
                if before.contains(y) {
                    let j = choose|j: int| 0 <= j < before.len() && before[j] == y;
                    assert(row@[j] == y);
                }
                if y == x {
                    assert(row@[before.len() as int] == y);
                }
            }
            if before.no_duplicates() {
                assert forall|a: int, b: int|
                    0 <= a < row@.len() && 0 <= b < row@.len() && a != b implies row@[a]
                    != row@[b] by {
                    if a < before.len() && b < before.len() {
                        assert(before[a] != before[b]);
                    } else if a < before.len() {
                        assert(before.contains(before[a]));
                    } else if b < before.len() {
                        assert(before.contains(before[b]));
                    }
                }
            }
        }
    }
}

/// Whether `row` holds `x`.
fn contains_place(row: &Vec<usize>, x: usize) -> (r: bool)
    ensures
        r == row@.contains(x),
{
    let mut i: usize = 0;
    while i < row.len()
        invariant
            i <= row@.len(),
            forall|j: int| 0 <= j < i ==> row@[j] != x,
        decreases row@.len() - i,
    {
        if row[i] == x {
            return true;
        }
        i = i + 1;
    }
    false
}

/// The neighbour of `current` with the fewest remaining neighbours of its own, ties broken
/// at random.
fn best_neighbor(current: usize, table: &LinearMap<usize, Vec<usize>>) -> (r: usize)
    requires
        table_view(*table).contains_key(current),
        table_view(*table)[current].len() > 0,
        forall|i: int|
            0 <= i < table_view(*table)[current].len() ==> table_view(*table).contains_key(
                #[trigger] table_view(*table)[current][i],
            ),
    ensures
        table_view(*table)[current].contains(r),
        forall|i: int|
            0 <= i < table_view(*table)[current].len() ==> table_view(*table)[r].len()
                <= table_view(*table)[#[trigger] table_view(*table)[current][i]].len(),
{
    let ghost t = table_view(*table);
    let row = table_get(table, current).unwrap();
    let mut counted: Vec<(usize, usize)> = Vec::with_capacity(row.len());
    let mut i: usize = 0;
    while i < row.len()
        invariant
            t == table_view(*table),
            t.contains_key(current),
            row@ == t[current],
            forall|j: int| 0 <= j < t[current].len() ==> t.contains_key(#[trigger] t[current][j]),
            i <= row@.len(),
            counted@.len() == i,
            forall|j: int|
                0 <= j < i ==> (#[trigger] counted@[j]).0 == row@[j] && counted@[j].1
                    == t[row@[j]].len(),
        decreases row@.len() - i,
    {
        let neighbor = row[i];
        assert(t.contains_key(t[current][i as int]));
        let count = table_get(table, neighbor).unwrap().len();
        counted.push((neighbor, count));
        i = i + 1;
    }
    let ghost all = counted@;
    let fewest = fewest_neighbors(counted);
    proof {
        lemma_least_count(all);
        let pred = |p: (usize, usize)| p.1 == least_count(all);
        let w = choose|w: int| 0 <= w < all.len() && all[w].1 == least_count(all);
        all.lemma_filter_contains(pred, w);
        assert(fewest@.contains(all[w]));
    }
    let pick = random_in(0, fewest.len());
    proof {
        let pred = |p: (usize, usize)| p.1 == least_count(all);
        all.lemma_filter_pred(pred, pick as int);
        assert(fewest@.contains(fewest@[pick as int]));
        all.lemma_filter_contains_rev(pred, fewest@[pick as int]);
        let j = choose|j: int| 0 <= j < all.len() && all[j] == fewest@[pick as int];
        assert(row@[j] == fewest@[pick as int].0);
        assert forall|i: int| 0 <= i < t[current].len() implies t[fewest@[pick as int].0].len()
            <= t[#[trigger] t[current][i]].len() by {
            assert(all[i].1 >= least_count(all));
        }
    }
    fewest[pick].0
}

/// A key of `table` drawn uniformly at random.
fn random_neighbor(table: &LinearMap<usize, Vec<usize>>) -> (r: usize)
    requires
        exists|k: usize| table_view(*table).contains_key(k),
    ensures
        table_view(*table).contains_key(r),
{
    let keys = table_keys(table);
    proof {
        let k = choose|k: usize| table_view(*table).contains_key(k);
        assert(keys@.contains(k));
    }
    let pick = random_in(0, keys.len());
    proof {
        assert(keys@.contains(keys@[pick as int]));
    }
    keys[pick]
}

/// Removes `gene` from every row of `table`.
fn strip(table: &mut LinearMap<usize, Vec<usize>>, gene: usize)
    ensures
        table_view(*final(table)).dom() == table_view(*old(table)).dom(),
        forall|k: usize| #[trigger]
            table_view(*final(table)).contains_key(k) ==> table_view(*final(table))[k] == table_view(
                *old(table),
            )[k].filter(|x: usize| x != gene),
{
    let ghost start = table_view(*table);
    let keys = table_keys(table);
    let mut i: usize = 0;
    while i < keys.len()
        invariant
            i <= keys@.len(),
            keys@.no_duplicates(),
            forall|k: usize| keys@.contains(k) <==> start.contains_key(k),
            table_view(*table).dom() == start.dom(),
            forall|k: usize| #[trigger]
                table_view(*table).contains_key(k) ==> table_view(*table)[k] == if keys@.subrange(
                    0,
                    i as int,
                ).contains(k) {
                    start[k].filter(|x: usize| x != gene)
                } else {
                    start[k]
                },
        decreases keys@.len() - i,
    {
        let key = keys[i];
        assert(keys@.contains(key));
        let row = table_remove(table, key).unwrap();
        let mut kept: Vec<usize> = Vec::with_capacity(row.len());
        let mut j: usize = 0;
        while j < row.len()
            invariant
                j <= row@.len(),
                kept@ == row@.subrange(0, j as int).filter(|x: usize| x != gene),
            decreases row@.len() - j,
        {
            if row[j] != gene {
                kept.push(row[j]);
            }
            proof {
                let s = row@.subrange(0, j + 1);
                assert(s.drop_last() =~= row@.subrange(0, j as int));
                reveal(Seq::filter);
            }
            j = j + 1;
        }
        proof {
            assert(row@.subrange(0, row@.len() as int) =~= row@);
        }
        table_insert(table, key, kept);
        proof {
            assert forall|k: usize| keys@.subrange(0, i + 1).contains(k) == (keys@.subrange(
                0,
                i as int,
            ).contains(k) || k == key) by {
                let before = keys@.subrange(0, i as int);
                let now = keys@.subrange(0, i + 1);
                if now.contains(k) {
                    let s = choose|s: int| 0 <= s < now.len() && now[s] == k;
                    if s < i {
                        assert(before[s] == k);
                    }
                }
                if before.contains(k) {
                    let s = choose|s: int| 0 <= s < before.len() && before[s] == k;
                    assert(now[s] == k);
                }
                if k == key {
                    assert(now[i as int] == k);
                }
            }
            assert(!keys@.subrange(0, i as int).contains(key)) by {
                if keys@.subrange(0, i as int).contains(key) {
                    let s = choose|s: int|
                        0 <= s < i && keys@.subrange(0, i as int)[s] == key;
                    assert(keys@[s] == keys@[i as int]);
                }
            }
            assert(table_view(*table).dom() =~= start.dom());
        }
        i = i + 1;
    }
    proof {
        assert forall|k: usize| keys@.subrange(0, keys@.len() as int).contains(k) <==> keys@.contains(k) by {
            assert(keys@.subrange(0, keys@.len() as int) =~= keys@);
        }
    }
}

} // verus!

verus! {

/// Step `t` of the walk `child` keeps to the neighbours in `adjacency`: it moves to a
/// neighbour of the gene before, or that gene has no neighbour left that is not already used.
pub open spec fn follows_edges(adjacency: Map<usize, Seq<usize>>, child: Seq<usize>, t: int) -> bool {
    adjacency[child[t - 1]].contains(child[t]) || forall|x: usize|
        #[trigger] adjacency[child[t - 1]].contains(x) ==> child.subrange(0, t).contains(x)
}

/// The row of `y` in `adjacency` without the genes of `used`.
pub open spec fn unused_row(adjacency: Map<usize, Seq<usize>>, used: Seq<usize>, y: usize) -> Seq<usize> {
    adjacency[y].filter(|w: usize| !used.contains(w))
}

/// The move from `from` to `to`, with the genes of `used` already placed, goes to an unused
/// neighbour of `from` with the fewest unused neighbours of its own, whenever `from` has an
/// unused neighbour.
pub open spec fn fewest_move(
    adjacency: Map<usize, Seq<usize>>,
    used: Seq<usize>,
    from: usize,
    to: usize,
) -> bool {
    (exists|z: usize| adjacency[from].contains(z) && !used.contains(z)) ==> {
        &&& adjacency[from].contains(to)
        &&& forall|z: usize|
            #[trigger] adjacency[from].contains(z) && !used.contains(z) ==> unused_row(
                adjacency,
                used,
                to,
            ).len() <= unused_row(adjacency, used, z).len()
    }
}

/// Filtering twice is filtering once by both conditions.
proof fn lemma_filter_twice(
    s: Seq<usize>,
    p: spec_fn(usize) -> bool,
    q: spec_fn(usize) -> bool,
    both: spec_fn(usize) -> bool,
)
    requires
        forall|x: usize| #[trigger] both(x) == (p(x) && q(x)),
    ensures
        s.filter(p).filter(q) == s.filter(both),
    decreases s.len(),
{
    reveal(Seq::filter);
    if s.len() > 0 {
        lemma_filter_twice(s.drop_last(), p, q, both);
        if p(s.last()) {
            assert(s.filter(p).drop_last() =~= s.drop_last().filter(p));
        }
    }
}

/// Filtering by a condition that every element meets keeps the sequence.
proof fn lemma_filter_all(s: Seq<usize>, p: spec_fn(usize) -> bool)
    requires
        forall|x: usize| #[trigger] p(x),
    ensures
        s.filter(p) == s,
    decreases s.len(),
{
    reveal(Seq::filter);
    if s.len() > 0 {
        lemma_filter_all(s.drop_last(), p);
        assert(s.drop_last().push(s.last()) =~= s);
    }
}

/// A gene other than `g` stays in a row exactly when it was in it before `g` was removed.
proof fn lemma_filter_without(s: Seq<usize>, g: usize, x: usize)
    ensures
        s.filter(|y: usize| y != g).contains(x) <==> s.contains(x) && x != g,
{
    let pred = |y: usize| y != g;
    if s.filter(pred).contains(x) {
        s.lemma_filter_contains_rev(pred, x);
        let i = choose|i: int| 0 <= i < s.filter(pred).len() && s.filter(pred)[i] == x;
        s.lemma_filter_pred(pred, i);
    }
    if s.contains(x) && x != g {
        let i = choose|i: int| 0 <= i < s.len() && s[i] == x;
        s.lemma_filter_contains(pred, i);
    }
}

/// One edge-recombination child, as places of the first parent: it starts at `start`,
/// visits every place below `length` once, and each step keeps to the neighbours in
/// `adjacency` while the gene before has any left.
pub fn edge_recombination(start: usize, length: usize, adjacency: Table) -> (r: Vec<usize>)
    requires
        1 <= length,
        start < length,
        keys_below(table_view(adjacency), length as nat),
        rows_within(table_view(adjacency)),
    ensures
        r@.len() == length,
        r@.no_duplicates(),
        forall|i: int| 0 <= i < r@.len() ==> (#[trigger] r@[i]) < length,
        r@[0] == start,
        forall|t: int| 0 < t < r@.len() ==> #[trigger] follows_edges(table_view(adjacency), r@, t),
        forall|t: int|
            0 < t < r@.len() ==> #[trigger] fewest_move(
                table_view(adjacency),
                r@.subrange(0, t),
                r@[t - 1],
                r@[t],
            ),
{
    let ghost first = table_view(adjacency);
    let mut table = adjacency;
    let mut child: Vec<usize> = Vec::with_capacity(length);
    let mut gene = start;
    let mut done = false;
    proof {
        assert(child@ =~= Seq::<usize>::empty());
        assert forall|k: usize| #[trigger]
            table_view(table).contains_key(k) implies table_view(table)[k] == unused_row(
            first,
            child@,
            k,
        ) by {
            lemma_filter_all(first[k], |w: usize| !child@.contains(w));
        }
    }
    while !done
        invariant
            1 <= length,
            child@.no_duplicates(),
            forall|i: int| 0 <= i < child@.len() ==> (#[trigger] child@[i]) < length,
            child@.len() > 0 ==> child@[0] == start,
            child@.len() == 0 ==> gene == start,
            done ==> child@.len() == length,
            !done ==> child@.len() < length,
            !done ==> table_view(table).contains_key(gene),
            !done ==> forall|k: usize| #[trigger] table_view(table).contains_key(k) ==> k < length,
            !done ==> forall|x: usize|
                x < length ==> #[trigger] table_view(table).contains_key(x) || child@.contains(x),
            !done ==> forall|x: usize| #[trigger] child@.contains(x) ==> !table_view(table).contains_key(x),
            !done ==> rows_within(table_view(table)),
            forall|t: int| 0 < t < child@.len() ==> #[trigger] follows_edges(first, child@, t),
            keys_below(first, length as nat),
            !done ==> forall|k: usize, x: usize|
                #![trigger table_view(table)[k].contains(x)]
                table_view(table).contains_key(k) && table_view(table)[k].contains(x)
                    ==> first[k].contains(x),
            !done ==> forall|k: usize, x: usize|
                #![trigger first[k].contains(x), table_view(table).contains_key(k)]
                table_view(table).contains_key(k) && first[k].contains(x) ==> table_view(
                    table,
                )[k].contains(x) || child@.contains(x),
            !done && child@.len() > 0 ==> (first[child@.last()].contains(gene) || forall|x: usize|
                #[trigger] first[child@.last()].contains(x) ==> child@.contains(x)),
            forall|t: int|
                0 < t < child@.len() ==> #[trigger] fewest_move(
                    first,
                    child@.subrange(0, t),
                    child@[t - 1],
                    child@[t],
                ),
            !done ==> forall|k: usize| #[trigger]
                table_view(table).contains_key(k) ==> table_view(table)[k] == unused_row(
                    first,
                    child@,
                    k,
                ),
            !done && child@.len() > 0 ==> fewest_move(first, child@, child@.last(), gene),
        decreases length - child@.len() + if done {
            0int
        } else {
            1int
        },
    {
        let ghost before = child@;
        proof {
            assert(!before.contains(gene));
        }
        child.push(gene);
        proof {
            assert forall|a: int, b: int|
                0 <= a < child@.len() && 0 <= b < child@.len() && a != b implies child@[a]
                != child@[b] by {
                if a < before.len() && b < before.len() {
                    assert(before[a] != before[b]);
                } else if a < before.len() {
                    assert(before.contains(before[a]));
                } else if b < before.len() {
                    assert(before.contains(before[b]));
                }
            }
            assert forall|x: usize| #[trigger] child@.contains(x) == (before.contains(x) || x == gene) by {
                if child@.contains(x) {
                    let s = choose|s: int| 0 <= s < child@.len() && child@[s] == x;
                    if s < before.len() {
                        assert(before[s] == x);
                    }
                }
                if before.contains(x) {
                    let s = choose|s: int| 0 <= s < before.len() && before[s] == x;
                    assert(child@[s] == x);
                }
                if x == gene {
                    assert(child@[before.len() as int] == x);
                }
            }
            assert(child@.subrange(0, before.len() as int) =~= before);
            assert forall|t: int| 0 < t < child@.len() implies #[trigger] follows_edges(
                first,
                child@,
                t,
            ) by {
                if t < before.len() {
                    assert(follows_edges(first, before, t));
                    assert(child@.subrange(0, t) =~= before.subrange(0, t));
                } else {
                    assert(child@[t - 1] == before.last());
                    assert(child@[t] == gene);
                    if !first[before.last()].contains(gene) {
                        assert forall|x: usize| #[trigger] first[child@[t - 1]].contains(x) implies child@.subrange(0, t).contains(x) by {
                            assert(before.contains(x));
                        }
                    }
                }
            }
            assert forall|t: int| 0 < t < child@.len() implies #[trigger] fewest_move(
                first,
                child@.subrange(0, t),
                child@[t - 1],
                child@[t],
            ) by {
                if t < before.len() {
                    assert(child@.subrange(0, t) =~= before.subrange(0, t));
                    assert(fewest_move(first, before.subrange(0, t), before[t - 1], before[t]));
                } else {
                    assert(child@.subrange(0, t) =~= before);
                    assert(child@[t - 1] == before.last());
                }
            }
        }
        if child.len() >= length {
            done = true;
        } else {
            let ghost t0 = table_view(table);
            strip(&mut table, gene);
            let ghost t1 = table_view(table);
            proof {
                assert forall|k: usize, i: int|
                    #![trigger t1[k][i]]
                    t1.contains_key(k) && 0 <= i < t1[k].len() implies t0.contains_key(t1[k][i])
                        && t1[k][i] != gene by {
                    let pred = |x: usize| x != gene;
                    assert(t1[k] == t0[k].filter(pred));
                    t0[k].lemma_filter_pred(pred, i);
                    assert(t1[k].contains(t1[k][i]));
                    t0[k].lemma_filter_contains_rev(pred, t1[k][i]);
                    let j = choose|j: int| 0 <= j < t0[k].len() && t0[k][j] == t1[k][i];
                    assert(t0.contains_key(t0[k][j]));
                }
                assert(t1.contains_key(gene));
            }
            proof {
                assert forall|k: usize, x: usize| t1.contains_key(k) implies (t1[k].contains(x) <==> t0[k].contains(x) && x != gene) by {
                    lemma_filter_without(t0[k], gene, x);
                }
                assert forall|k: usize| #[trigger] t1.contains_key(k) implies t1[k] == unused_row(
                    first,
                    child@,
                    k,
                ) by {
                    lemma_filter_twice(
                        first[k],
                        |w: usize| !before.contains(w),
                        |x: usize| x != gene,
                        |w: usize| !child@.contains(w),
                    );
                }
            }
            let row = table_get(&table, gene).unwrap();
            if row.len() > 0 {
                let previous = gene;
                gene = best_neighbor(previous, &table);
                proof {
                    let i = choose|i: int| 0 <= i < t1[previous].len() && t1[previous][i] == gene;
                    assert(t0.contains_key(t1[previous][i]));
                    assert(t1[previous].contains(gene));
                    assert(first[previous].contains(gene));
                    assert(previous == child@.last());
                    assert forall|z: usize|
                        #[trigger] first[previous].contains(z) && !child@.contains(z) implies unused_row(
                        first,
                        child@,
                        gene,
                    ).len() <= unused_row(first, child@, z).len() by {
                        let pred = |w: usize| !child@.contains(w);
                        let j = choose|j: int| 0 <= j < first[previous].len() && first[previous][j] == z;
                        first[previous].lemma_filter_contains(pred, j);
                        assert(t1[previous].contains(z));
                        let i = choose|i: int| 0 <= i < t1[previous].len() && t1[previous][i] == z;
                        assert(t0.contains_key(t1[previous][i]));
                        assert(t1.contains_key(z));
                        assert(t1.contains_key(gene));
                    }
                }
                table_remove(&mut table, previous);
            } else {
                proof {
                    assert(gene == child@.last());
                    assert(!(exists|z: usize| first[gene].contains(z) && !child@.contains(z))) by {
                        if exists|z: usize| first[gene].contains(z) && !child@.contains(z) {
                            let z = choose|z: usize| first[gene].contains(z) && !child@.contains(z);
                            let pred = |w: usize| !child@.contains(w);
                            let j = choose|j: int| 0 <= j < first[gene].len() && first[gene][j] == z;
                            first[gene].lemma_filter_contains(pred, j);
                            assert(row@.contains(z));
                        }
                    }
                    assert forall|x: usize| #[trigger] first[gene].contains(x) implies child@.contains(x) by {
                        if !child@.contains(x) {
                            assert(t0[gene].contains(x));
                            assert(t1[gene].contains(x));
                            assert(row@.contains(x));
                        }
                    }
                }
                table_remove(&mut table, gene);
                proof {
                    crate::utility::lemma_short_misses(child@, length as nat);
                    let x = choose|x: usize| x < length && !child@.contains(x);
                    assert(t0.contains_key(x));
                    assert(table_view(table).contains_key(x));
                }
                gene = random_neighbor(&table);
            }
            proof {
                let t2 = table_view(table);
                assert forall|k: usize, i: int|
                    #![trigger t2[k][i]]
                    t2.contains_key(k) && 0 <= i < t2[k].len() implies t2.contains_key(t2[k][i]) by {
                    assert(t2[k] == t1[k]);
                    assert(t1[k][i] == t2[k][i]);
                }
            }
        }
    }
    child
}

/// The genes of `parent` at the places `places`, in order.
fn genes_at<T: Copy>(parent: &Vec<T>, places: &Vec<usize>) -> (r: Vec<T>)
    requires
        forall|i: int| 0 <= i < places@.len() ==> (#[trigger] places@[i]) < parent@.len(),
    ensures
        r@.len() == places@.len(),
        forall|i: int| 0 <= i < places@.len() ==> (#[trigger] r@[i]) == parent@[places@[i] as int],
{
    let mut r: Vec<T> = Vec::with_capacity(places.len());
    let mut i: usize = 0;
    while i < places.len()
        invariant
            i <= places@.len(),
            forall|j: int| 0 <= j < places@.len() ==> (#[trigger] places@[j]) < parent@.len(),
            r@.len() == i,
            forall|j: int| 0 <= j < i ==> (#[trigger] r@[j]) == parent@[places@[j] as int],
        decreases places@.len() - i,
    {
        r.push(parent[places[i]]);
        i = i + 1;
    }
    r
}

/// The genes of a duplicate-free `parent` at all its places, each once, in any order, are a
/// reordering of `parent`.
proof fn lemma_all_places_permutation<T>(parent: Seq<T>, places: Seq<usize>, genes: Seq<T>)
    requires
        parent.no_duplicates(),
        places.no_duplicates(),
        places.len() == parent.len(),
        forall|i: int| 0 <= i < places.len() ==> (#[trigger] places[i]) < parent.len(),
        genes.len() == places.len(),
        forall|i: int| 0 <= i < places.len() ==> (#[trigger] genes[i]) == parent[places[i] as int],
    ensures
        is_permutation_of(genes, parent),
{
    assert forall|a: int, b: int| 0 <= a < genes.len() && 0 <= b < genes.len() && a != b implies genes[a]
        != genes[b] by {
        assert(places[a] != places[b]);
    }
    assert forall|i: int| 0 <= i < genes.len() implies parent.contains(#[trigger] genes[i]) by {
        assert(parent[places[i] as int] == genes[i]);
    }
    lemma_distinct_within_is_permutation(genes, parent);
}

/// `b` is next to `a` in the cyclic tour `tour`.
pub open spec fn next_to<T>(tour: Seq<T>, a: T, b: T) -> bool {
    exists|i: int|
        0 <= i < tour.len() && tour[i] == a && (b == tour[before(tour.len() as int, i)] || b
            == tour[after(tour.len() as int, i)])
}

/// Step `t` of the child `c` keeps to the edges of `p1` and `p2`: its gene is next to the gene
/// before in either tour, or every gene next to that one in either tour is already used.
pub open spec fn keeps_to_edges<T>(p1: Seq<T>, p2: Seq<T>, c: Seq<T>, t: int) -> bool {
    next_to(p1, c[t - 1], c[t]) || next_to(p2, c[t - 1], c[t]) || forall|x: T|
        #![trigger next_to(p1, c[t - 1], x)]
        #![trigger next_to(p2, c[t - 1], x)]
        next_to(p1, c[t - 1], x) || next_to(p2, c[t - 1], x) ==> c.subrange(0, t).contains(x)
}

/// The outcome of edge recombination on `parents`: for duplicate-free parents of one length
/// (at least two) that hold the same genes, two children that are each a reordering of those
/// genes and keep to the parents' edges wherever they can.
pub open spec fn edge_recombination_outcome<T>(
    parents: Seq<Vec<T>>,
    r: Result<Vec<Vec<T>>, CrossoverError>,
) -> bool {
    if parents.len() < 2 {
        r == Err::<Vec<Vec<T>>, CrossoverError>(CrossoverError::ParentCount)
    } else {
        let p1 = parents[0]@;
        let p2 = parents[1]@;
        if p1.len() != p2.len() {
            r == Err::<Vec<Vec<T>>, CrossoverError>(CrossoverError::LengthMismatch)
        } else if !(p1.no_duplicates() && p2.no_duplicates()) {
            r == Err::<Vec<Vec<T>>, CrossoverError>(CrossoverError::DuplicateGenes)
        } else if !permutation_pair(p1, p2) {
            r == Err::<Vec<Vec<T>>, CrossoverError>(CrossoverError::GeneSetMismatch)
        } else if p1.len() < 2 {
            r == Err::<Vec<Vec<T>>, CrossoverError>(CrossoverError::TooShort)
        } else {
            r matches Ok(c) && c.len() == 2 && is_permutation_of(c[0]@, p1) && is_permutation_of(
                c[1]@,
                p1,
            ) && (forall|t: int| 0 < t < p1.len() ==> #[trigger] keeps_to_edges(p1, p2, c[0]@, t))
                && (forall|t: int| 0 < t < p1.len() ==> #[trigger] keeps_to_edges(p1, p2, c[1]@, t))
        }
    }
}

/// Read in genes, a walk over the places of `p1` that follows the table of both tours keeps
/// to the edges of `p1` and `p2`.
proof fn lemma_walk_keeps_to_edges<T>(
    p1: Seq<T>,
    p2: Seq<T>,
    order1: Seq<usize>,
    order2: Seq<usize>,
    table: Map<usize, Seq<usize>>,
    places: Seq<usize>,
    genes: Seq<T>,
)
    requires
        permutation_pair(p1, p2),
        p1.len() >= 2,
        order1.len() == p1.len(),
        order2.len() == p1.len(),
        forall|i: int| 0 <= i < p1.len() ==> order1[i] == i,
        forall|i: int| 0 <= i < p1.len() ==> (#[trigger] order2[i]) < p1.len() && p1[order2[i] as int] == p2[i],
        forall|k: usize, x: usize|
            k < p1.len() ==> (#[trigger] table[k].contains(x) <==> next_in_tour(order1, k, x)
                || next_in_tour(order2, k, x)),
        places.len() == p1.len(),
        forall|i: int| 0 <= i < places.len() ==> (#[trigger] places[i]) < p1.len(),
        forall|t: int| 0 < t < places.len() ==> #[trigger] follows_edges(table, places, t),
        genes.len() == places.len(),
        forall|i: int| 0 <= i < places.len() ==> (#[trigger] genes[i]) == p1[places[i] as int],
    ensures
        forall|t: int| 0 < t < p1.len() ==> #[trigger] keeps_to_edges(p1, p2, genes, t),
{
    let n = p1.len() as int;
    crate::utility::permutation_pair_symmetric(p1, p2);
    assert forall|k: usize, x: usize| k < n && x < n implies (next_in_tour(order1, k, x) || next_in_tour(order2, k, x)) == (next_to(p1, p1[k as int], p1[x as int]) || next_to(p2, p1[k as int], p1[x as int])) by {
        if next_in_tour(order1, k, x) {
            let i = choose|i: int| 0 <= i < order1.len() && order1[i] == k && (x == order1[before(n, i)] || x == order1[after(n, i)]);
            assert(p1[i] == p1[k as int]);
        }
        if next_in_tour(order2, k, x) {
            let i = choose|i: int| 0 <= i < order2.len() && order2[i] == k && (x == order2[before(n, i)] || x == order2[after(n, i)]);
            assert(p2[i] == p1[k as int]);
            assert(p1[order2[before(n, i)] as int] == p2[before(n, i)]);
            assert(p1[order2[after(n, i)] as int] == p2[after(n, i)]);
        }
        if next_to(p1, p1[k as int], p1[x as int]) {
            let i = choose|i: int| 0 <= i < p1.len() && p1[i] == p1[k as int] && (p1[x as int] == p1[before(n, i)] || p1[x as int] == p1[after(n, i)]);
            assert(i == k);
            assert(order1[i] == k);
            assert(order1[before(n, i)] == before(n, i));
            assert(order1[after(n, i)] == after(n, i));
        }
        if next_to(p2, p1[k as int], p1[x as int]) {
            let i = choose|i: int| 0 <= i < p2.len() && p2[i] == p1[k as int] && (p1[x as int] == p2[before(n, i)] || p1[x as int] == p2[after(n, i)]);
            assert(p1[order2[i] as int] == p2[i]);
            assert(order2[i] == k);
            assert(p1[order2[before(n, i)] as int] == p2[before(n, i)]);
            assert(p1[order2[after(n, i)] as int] == p2[after(n, i)]);
        }
    }
    assert forall|t: int| 0 < t < p1.len() implies #[trigger] keeps_to_edges(p1, p2, genes, t) by {
        assert(follows_edges(table, places, t));
        let k = places[t - 1];
        let y = places[t];
        if !table[k].contains(y) {
            assert forall|x: T|
                #![trigger next_to(p1, genes[t - 1], x)]
                #![trigger next_to(p2, genes[t - 1], x)]
                next_to(p1, genes[t - 1], x) || next_to(p2, genes[t - 1], x) implies genes.subrange(0, t).contains(x) by {
                let j: int = if next_to(p1, genes[t - 1], x) {
                    let i = choose|i: int| 0 <= i < p1.len() && p1[i] == genes[t - 1] && (x == p1[before(n, i)] || x == p1[after(n, i)]);
                    if x == p1[before(n, i)] { before(n, i) } else { after(n, i) }
                } else {
                    let i = choose|i: int| 0 <= i < p2.len() && p2[i] == genes[t - 1] && (x == p2[before(n, i)] || x == p2[after(n, i)]);
                    let m = if x == p2[before(n, i)] { before(n, i) } else { after(n, i) };
                    order2[m] as int
                };
                assert(0 <= j < n);
                assert(p1[j] == x);
                assert(table[k].contains(j as usize));
                assert(places.subrange(0, t).contains(j as usize));
                let s = choose|s: int| 0 <= s < t && places.subrange(0, t)[s] == j as usize;
                assert(genes.subrange(0, t)[s] == x);
            }
        }
    }
}

impl<T: Copy + PartialEq> Crossover<T> for EdgeRecombination {
    open spec fn arity(&self) -> nat {
        2
    }

    open spec fn brood(&self) -> nat {
        2
    }

    open spec fn crossed(&self, parents: Seq<Vec<T>>, r: Result<Vec<Vec<T>>, CrossoverError>) -> bool {
        &&& r matches Ok(c) ==> c.len() == 2
        &&& lawful_eq::<T>() ==> edge_recombination_outcome(parents, r)
    }

    open spec fn accepts(&self, parents: Seq<Vec<T>>) -> bool {
        &&& parents.len() >= 2
        &&& parents[0]@.len() == parents[1]@.len()
        &&& lawful_eq::<T>() ==> permutation_pair(parents[0]@, parents[1]@)
        &&& parents[0]@.len() >= 2
    }

    open spec fn exact_checks(&self) -> bool {
        lawful_eq::<T>()
    }

    fn check_parents(&self, parents: &Vec<Vec<T>>) -> (r: Result<(), CrossoverError>) {
        if parents.len() < 2 {
            return Err(CrossoverError::ParentCount);
        }
        let length = parents[0].len();
        if length != parents[1].len() {
            return Err(CrossoverError::LengthMismatch);
        }
        if !all_distinct(&parents[0]) || !all_distinct(&parents[1]) {
            return Err(CrossoverError::DuplicateGenes);
        }
        if !is_permutation_pair(&parents[0], &parents[1]) {
            return Err(CrossoverError::GeneSetMismatch);
        }
        if length < 2 {
            return Err(CrossoverError::TooShort);
        }
        Ok(())
    }

    fn parents(&self) -> usize {
        2
    }

    fn children(&self) -> usize {
        2
    }

    fn cross(&self, parents: &Vec<Vec<T>>) -> (r: Result<Vec<Vec<T>>, CrossoverError>)
    {
        if parents.len() < 2 {
            return Err(CrossoverError::ParentCount);
        }
        let parent1 = &parents[0];
        let parent2 = &parents[1];
        let length = parent1.len();
        if length != parent2.len() {
            return Err(CrossoverError::LengthMismatch);
        }
        if !all_distinct(parent1) || !all_distinct(parent2) {
            return Err(CrossoverError::DuplicateGenes);
        }
        if !is_permutation_pair(parent1, parent2) {
            return Err(CrossoverError::GeneSetMismatch);
        }
        if length < 2 {
            return Err(CrossoverError::TooShort);
        }
        let mut order1: Vec<usize> = Vec::with_capacity(length);
        while order1.len() < length
            invariant
                order1@.len() <= length,
                forall|i: int| 0 <= i < order1@.len() ==> order1@[i] == i,
            decreases length - order1@.len(),
        {
            order1.push(order1.len());
        }
        let mut order2: Vec<usize> = Vec::with_capacity(length);
        while order2.len() < length
            invariant
                length == parent1@.len() == parent2@.len(),
                order2@.len() <= length,
                forall|i: int| 0 <= i < order2@.len() ==> order2@[i] < length,
                lawful_eq::<T>() ==> permutation_pair(parent1@, parent2@),
                lawful_eq::<T>() ==> forall|i: int|
                    0 <= i < order2@.len() ==> parent1@[#[trigger] order2@[i] as int] == parent2@[i],
            decreases length - order2@.len(),
        {
            match position_in(parent1, &parent2[order2.len()], 0, length) {
                Some(place) => order2.push(place),
                None => {
                    proof {
                        if lawful_eq::<T>() {
                            crate::utility::permutation_pair_symmetric(parent1@, parent2@);
                            let k = order2@.len() as int;
                            assert(parent1@.contains(parent2@[k]));
                        }
                    }
                    return Err(CrossoverError::GeneSetMismatch);
                },
            }
        }
        let start1 = random_in(0, length);
        let start2 = order2[random_in(0, length)];
        let table1 = adjacency_matrix(&order1, &order2);
        let ghost view1 = table_view(table1);
        let places1 = edge_recombination(start1, length, table1);
        let table2 = adjacency_matrix(&order1, &order2);
        let ghost view2 = table_view(table2);
        let places2 = edge_recombination(start2, length, table2);
        let child1 = genes_at(parent1, &places1);
        let child2 = genes_at(parent1, &places2);
        proof {
            if lawful_eq::<T>() {
                lemma_all_places_permutation(parent1@, places1@, child1@);
                lemma_all_places_permutation(parent1@, places2@, child2@);
                lemma_walk_keeps_to_edges(parent1@, parent2@, order1@, order2@, view1, places1@, child1@);
                lemma_walk_keeps_to_edges(parent1@, parent2@, order1@, order2@, view2, places2@, child2@);
            }
        }
        let children = vec![child1, child2];
        Ok(children)
    }
}

} // verus!
