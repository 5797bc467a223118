use itertools::Itertools;
use rand::seq::SliceRandom;
use vstd::prelude::*;

verus! {

/// One revealed card: the line shown first and the line it leads to.
pub struct Draw {
    pub from: String,
    pub to: String,
}

impl View for Draw {
    type V = (Seq<char>, Seq<char>);

    open spec fn view(&self) -> (Seq<char>, Seq<char>) {
        (self.from@, self.to@)
    }
}

impl Draw {
    pub fn new(from: String, to: String) -> (r: Draw)
        ensures
            r.from == from,
            r.to == to,
    {
        Draw { from, to }
    }
}

/// The text of each line.
pub open spec fn line_views(lines: Seq<String>) -> Seq<Seq<char>> {
    lines.map_values(|l: String| l@)
}

/// The (from, to) text of each draw.
pub open spec fn draw_views(draws: Seq<Draw>) -> Seq<(Seq<char>, Seq<char>)> {
    draws.map_values(|d: Draw| d@)
}

/// The pairs `(x, y)` for each `y` of `ys` in order, leaving out those with `y == x`.
pub open spec fn row(x: Seq<char>, ys: Seq<Seq<char>>) -> Seq<(Seq<char>, Seq<char>)>
    decreases ys.len(),
{
    if ys.len() == 0 {
        seq![]
    } else {
        let rest = row(x, ys.drop_last());
        if x != ys.last() {
            rest.push((x, ys.last()))
        } else {
            rest
        }
    }
}

/// The ordered cartesian product of `xs` and `ys` (outer `xs`, inner `ys`),
/// leaving out each pair whose two values are equal.
pub open spec fn product(xs: Seq<Seq<char>>, ys: Seq<Seq<char>>) -> Seq<(Seq<char>, Seq<char>)>
    decreases xs.len(),
{
    if xs.len() == 0 {
        seq![]
    } else {
        product(xs.drop_last(), ys) + row(xs.last(), ys)
    }
}

/// Every pair of lines `(lines[i], lines[j])` with unequal values, in index order.
pub open spec fn qualifying_pairs(lines: Seq<Seq<char>>) -> Seq<(Seq<char>, Seq<char>)> {
    product(lines, lines)
}

/// `s` holds exactly the qualifying pairs of `lines`, each as often as it qualifies, in any order.
pub open spec fn is_pair_sequence(lines: Seq<Seq<char>>, s: Seq<(Seq<char>, Seq<char>)>) -> bool {
    s.to_multiset() == qualifying_pairs(lines).to_multiset()
}

/// Where the pair of row `i` and column `j` stands in a row-major product with rows of `m`.
pub open spec fn flat_index(i: int, j: int, m: int) -> int {
    i * m + j
}

/// Relies on itertools' `Itertools::cartesian_product` (collected with
/// `collect_vec`): each element of `a`, in order, is paired with each element
/// of `b`, in order, so the pair of `a[i]` and `b[j]` stands at `i * |b| + j`.
#[verifier::external_body]
fn product_of(a: &Vec<String>, b: &Vec<String>) -> (r: Vec<(String, String)>)
    ensures
        r@.len() == a@.len() * b@.len(),
        forall|i: int, j: int|
            0 <= i < a@.len() && 0 <= j < b@.len() ==> #[trigger] r@[flat_index(i, j, b@.len() as int)]
                == (a@[i], b@[j]),
{
    a.iter().cloned().cartesian_product(b.iter().cloned()).collect_vec()
}

/// Relies on rand's `SliceRandom::shuffle` with the thread-local generator
/// `rand::rng()`: the draws are reordered, none added, lost or changed.
#[verifier::external_body]
fn shuffle_draws(v: &mut Vec<Draw>)
    ensures
        draw_views(final(v)@).to_multiset() == draw_views(old(v)@).to_multiset(),
{
    v.shuffle(&mut rand::rng());
}

proof fn lemma_flat_index_bound(i: int, j: int, n: int)
    requires
        0 <= i < n,
        0 <= j < n,
    ensures
        0 <= flat_index(i, j, n) < n * n,
{
    assert(i * n + j < n * n) by (nonlinear_arith)
        requires
            0 <= i < n,
            0 <= j < n,
    ;
    assert(0 <= i * n) by (nonlinear_arith)
        requires
            0 <= i,
            0 <= n,
    ;
}

/// Every ordered pair of lines whose values differ, in index order: the pair
/// of `lines[i]` and `lines[j]` comes before that of `lines[i']` and `lines[j']`
/// when `(i, j)` is lexicographically smaller.
pub fn cartesian_product(lines: Vec<String>) -> (r: Vec<Draw>)
    ensures
        draw_views(r@) == qualifying_pairs(line_views(lines@)),
{
    let all = product_of(&lines, &lines);
    let n = lines.len();
    let total = all.len();
    let ghost lv = line_views(lines@);
    let mut r: Vec<Draw> = Vec::new();
    let mut i: usize = 0;
    while i < n
        invariant
            n == lines@.len(),
            lv == line_views(lines@),
            all@.len() == n * n,
            total == all@.len(),
            forall|a: int, b: int|
                0 <= a < n && 0 <= b < n ==> #[trigger] all@[flat_index(a, b, n as int)] == (
                    lines@[a],
                    lines@[b],
                ),
            0 <= i <= n,
            draw_views(r@) == product(lv.take(i as int), lv),
        decreases n - i,
    {
        let mut j: usize = 0;
        while j < n
            invariant
                n == lines@.len(),
                lv == line_views(lines@),
                all@.len() == n * n,
                total == all@.len(),
                forall|a: int, b: int|
                    0 <= a < n && 0 <= b < n ==> #[trigger] all@[flat_index(a, b, n as int)] == (
                        lines@[a],
                        lines@[b],
                    ),
                0 <= i < n,
                0 <= j <= n,
                draw_views(r@) == product(lv.take(i as int), lv) + row(lv[i as int], lv.take(j as int)),
            decreases n - j,
        {
            proof {
                lemma_flat_index_bound(i as int, j as int, n as int);
            }
            let k: usize = i * n + j;
            assert(all@[k as int] == (lines@[i as int], lines@[j as int])) by {
                assert(k as int == flat_index(i as int, j as int, n as int));
            }
            let pair = &all[k];
            let ghost before = draw_views(r@);
            if pair.0 == pair.1 {
            } else {
                r.push(Draw::new(pair.0.clone(), pair.1.clone()));
                assert(draw_views(r@) =~= before.push((lv[i as int], lv[j as int])));
            }
            proof {
                assert(lv.take(j + 1).drop_last() =~= lv.take(j as int));
                assert(lv.take(j + 1).last() == lv[j as int]);
            }
            j = j + 1;
        }
        proof {
            assert(lv.take(n as int) =~= lv);
            assert(lv.take(i + 1).drop_last() =~= lv.take(i as int));
            assert(lv.take(i + 1).last() == lv[i as int]);
        }
        i = i + 1;
    }
    assert(lv.take(n as int) =~= lv);
    r
}

/// The pair sequence of `lines`: all qualifying pairs, shuffled.
pub fn generate_pairs(lines: Vec<String>) -> (r: Vec<Draw>)
    ensures
        is_pair_sequence(line_views(lines@), draw_views(r@)),
{
    let mut r = cartesian_product(lines);
    shuffle_draws(&mut r);
    r
}

proof fn lemma_row_unequal(x: Seq<char>, ys: Seq<Seq<char>>)
    ensures
        forall|k: int| 0 <= k < row(x, ys).len() ==> #[trigger] row(x, ys)[k].0 != row(x, ys)[k].1,
    decreases ys.len(),
{
    if ys.len() > 0 {
        let rest = row(x, ys.drop_last());
        lemma_row_unequal(x, ys.drop_last());
        if x != ys.last() {
            let r = rest.push((x, ys.last()));
            assert forall|k: int| 0 <= k < r.len() implies #[trigger] r[k].0 != r[k].1 by {
                if k < rest.len() {
                    assert(r[k] == rest[k]);
                }
            }
        }
    }
}

proof fn lemma_product_unequal(xs: Seq<Seq<char>>, ys: Seq<Seq<char>>)
    ensures
        forall|k: int|
            0 <= k < product(xs, ys).len() ==> #[trigger] product(xs, ys)[k].0 != product(xs, ys)[k].1,
    decreases xs.len(),
{
    if xs.len() > 0 {
        lemma_product_unequal(xs.drop_last(), ys);
        lemma_row_unequal(xs.last(), ys);
        let a = product(xs.drop_last(), ys);
        let b = row(xs.last(), ys);
        assert forall|k: int| 0 <= k < (a + b).len() implies #[trigger] (a + b)[k].0 != (a + b)[k].1 by {
            if k >= a.len() {
                assert((a + b)[k] == b[k - a.len()]);
            }
        }
    }
}

proof fn lemma_row_len_absent(x: Seq<char>, ys: Seq<Seq<char>>)
    requires
        !ys.contains(x),
    ensures
        row(x, ys).len() == ys.len(),
    decreases ys.len(),
{
    if ys.len() > 0 {
        let rest = ys.drop_last();
        assert(!rest.contains(x)) by {
            if rest.contains(x) {
                let k = choose|k: int| 0 <= k < rest.len() && rest[k] == x;
                assert(ys[k] == x);
            }
        }
        assert(ys[ys.len() - 1] != x);
        lemma_row_len_absent(x, rest);
    }
}

proof fn lemma_row_len_once(x: Seq<char>, ys: Seq<Seq<char>>)
    requires
        ys.no_duplicates(),
        ys.contains(x),
    ensures
        row(x, ys).len() == ys.len() - 1,
    decreases ys.len(),
{
    let rest = ys.drop_last();
    let last = ys.len() - 1;
    let w = choose|k: int| 0 <= k < ys.len() && ys[k] == x;
    if ys[last] == x {
        assert(!rest.contains(x)) by {
            if rest.contains(x) {
                let k = choose|k: int| 0 <= k < rest.len() && rest[k] == x;
                assert(ys[k] == ys[last]);
            }
        }
        lemma_row_len_absent(x, rest);
    } else {
        assert(w != last);
        assert(rest[w] == x);
        assert(rest.contains(x));
        assert(rest.no_duplicates()) by {
            assert forall|i: int, j: int|
                0 <= i < rest.len() && 0 <= j < rest.len() && i != j implies rest[i] != rest[j] by {
                assert(ys[i] != ys[j]);
            }
        }
        lemma_row_len_once(x, rest);
    }
}

proof fn lemma_product_len(xs: Seq<Seq<char>>, ys: Seq<Seq<char>>)
    requires
        ys.no_duplicates(),
        forall|i: int| 0 <= i < xs.len() ==> ys.contains(#[trigger] xs[i]),
    ensures
        product(xs, ys).len() == xs.len() * (ys.len() - 1),
    decreases xs.len(),
{
    if xs.len() > 0 {
        let rest = xs.drop_last();
        assert forall|i: int| 0 <= i < rest.len() implies ys.contains(#[trigger] rest[i]) by {
            assert(rest[i] == xs[i]);
        }
        lemma_product_len(rest, ys);
        assert(ys.contains(xs[xs.len() - 1]));
        lemma_row_len_once(xs.last(), ys);
        let k = xs.len() as int;
        let m = ys.len() as int;
        assert((k - 1) * (m - 1) + (m - 1) == k * (m - 1)) by (nonlinear_arith);
    }
}

/// No pair of a pair sequence joins two equal lines: `from != to` for every pair.
pub proof fn pair_sequence_has_no_equal_pair(lines: Seq<Seq<char>>, s: Seq<(Seq<char>, Seq<char>)>)
    requires
        is_pair_sequence(lines, s),
    ensures
        forall|i: int| 0 <= i < s.len() ==> #[trigger] s[i].0 != s[i].1,
{
    let q = qualifying_pairs(lines);
    s.to_multiset_ensures();
    q.to_multiset_ensures();
    lemma_product_unequal(lines, lines);
    assert forall|i: int| 0 <= i < s.len() implies #[trigger] s[i].0 != s[i].1 by {
        assert(s.contains(s[i]));
        assert(s.to_multiset().count(s[i]) > 0);
        assert(q.to_multiset().count(s[i]) > 0);
        assert(q.contains(s[i]));
        let k = choose|k: int| 0 <= k < q.len() && q[k] == s[i];
        assert(q[k].0 != q[k].1);
    }
}

/// When no two lines are equal, a pair sequence holds `n * (n - 1)` pairs for `n` lines.
pub proof fn distinct_lines_pair_count(lines: Seq<Seq<char>>, s: Seq<(Seq<char>, Seq<char>)>)
    requires
        lines.no_duplicates(),
        is_pair_sequence(lines, s),
    ensures
        s.len() == lines.len() * (lines.len() - 1),
{
    s.to_multiset_ensures();
    qualifying_pairs(lines).to_multiset_ensures();
    assert forall|i: int| 0 <= i < lines.len() implies lines.contains(#[trigger] lines[i]) by {}
    lemma_product_len(lines, lines);
}

/// A pair sequence is a permutation of the qualifying pairs: it has as many
/// pairs, holds each one as often, and holds no other pair.
pub proof fn pair_sequence_is_permutation(lines: Seq<Seq<char>>, s: Seq<(Seq<char>, Seq<char>)>)
    requires
        is_pair_sequence(lines, s),
    ensures
        s.len() == qualifying_pairs(lines).len(),
        forall|p: (Seq<char>, Seq<char>)|
            s.to_multiset().count(p) == #[trigger] qualifying_pairs(lines).to_multiset().count(p),
        forall|p: (Seq<char>, Seq<char>)| #[trigger] s.contains(p) <==> qualifying_pairs(lines).contains(p),
{
    let q = qualifying_pairs(lines);
    s.to_multiset_ensures();
    q.to_multiset_ensures();
    assert forall|p: (Seq<char>, Seq<char>)| #[trigger] s.contains(p) <==> q.contains(p) by {
        assert(s.contains(p) <==> s.to_multiset().count(p) > 0);
        assert(q.contains(p) <==> q.to_multiset().count(p) > 0);
    }
}

} // verus!
