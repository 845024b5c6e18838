//! Index permutations: what they are, how a sequence is reordered by one,
//! and the exchange shuffle that builds one from a list of draws.

use crate::random::draw_below;
use vstd::prelude::*;
use vstd::seq_lib::*;
use vstd::set_lib::*;

verus! {

/// The machine indices of `s` as mathematical integers.
pub open spec fn as_ints(s: Seq<usize>) -> Seq<int> {
    s.map_values(|v: usize| v as int)
}

/// `p` lists every index below `n` exactly once.
pub open spec fn is_permutation(p: Seq<int>, n: int) -> bool {
    &&& p.len() == n
    &&& forall|k: int| 0 <= k < n ==> 0 <= #[trigger] p[k] < n
    &&& forall|a: int, b: int| 0 <= a < b < n ==> p[a] != p[b]
}

/// The permutation that leaves every index in place.
pub open spec fn identity(n: nat) -> Seq<int> {
    Seq::new(n, |k: int| k)
}

/// `s` with the entries at `i` and `j` exchanged.
pub open spec fn swapped<T>(s: Seq<T>, i: int, j: int) -> Seq<T> {
    s.update(i, s[j]).update(j, s[i])
}

/// `s` laid out in the order `p`: position `k` receives `s[p[k]]`.
pub open spec fn reorder<T>(s: Seq<T>, p: Seq<int>) -> Seq<T> {
    Seq::new(p.len(), |k: int| s[p[k]])
}

/// The position at which `p` holds the index `v`.
pub open spec fn position_of(p: Seq<int>, v: int) -> int {
    choose|k: int| 0 <= k < p.len() && p[k] == v
}

/// Draws that the exchange shuffle accepts: the `i`-th one lies in `[i, n)`.
pub open spec fn valid_draws(draws: Seq<int>, n: int) -> bool {
    &&& draws.len() == n
    &&& forall|i: int| 0 <= i < n ==> i <= #[trigger] draws[i] < n
}

/// The index sequence after the first `steps` exchanges of the shuffle:
/// step `i` exchanges position `i` with position `draws[i]`.
pub open spec fn shuffle_steps(n: nat, draws: Seq<int>, steps: nat) -> Seq<int>
    decreases steps,
{
    if steps == 0 {
        identity(n)
    } else {
        let before = shuffle_steps(n, draws, (steps - 1) as nat);
        swapped(before, steps - 1, draws[steps - 1])
    }
}

/// The order that the exchange shuffle produces from `draws`.
pub open spec fn shuffle_order(draws: Seq<int>) -> Seq<int> {
    shuffle_steps(draws.len(), draws, draws.len())
}

/// Exchanging two entries of a permutation gives a permutation.
pub proof fn lemma_swapped_permutation(p: Seq<int>, n: int, i: int, j: int)
    requires
        is_permutation(p, n),
        0 <= i < n,
        0 <= j < n,
    ensures
        is_permutation(swapped(p, i, j), n),
{
    let q = swapped(p, i, j);
    assert forall|a: int, b: int| 0 <= a < b < n implies q[a] != q[b] by {
        let sa = if a == i { j } else if a == j { i } else { a };
        let sb = if b == i { j } else if b == j { i } else { b };
        assert(q[a] == p[sa]);
        assert(q[b] == p[sb]);
        assert(sa != sb);
        if sa < sb {
            assert(p[sa] != p[sb]);
        } else {
            assert(p[sb] != p[sa]);
        }
    }
}

/// The first `k` draws are ones that the exchange shuffle of `n` indices
/// accepts.
pub open spec fn valid_draws_upto(draws: Seq<int>, n: int, k: int) -> bool {
    &&& 0 <= k <= n
    &&& k <= draws.len()
    &&& forall|i: int| 0 <= i < k ==> i <= #[trigger] draws[i] < n
}

/// Every stage of the exchange shuffle is a permutation.
pub proof fn lemma_shuffle_steps_permutation(n: nat, draws: Seq<int>, steps: nat)
    requires
        valid_draws_upto(draws, n as int, steps as int),
    ensures
        is_permutation(shuffle_steps(n, draws, steps), n as int),
    decreases steps,
{
    if steps > 0 {
        lemma_shuffle_steps_permutation(n, draws, (steps - 1) as nat);
        lemma_swapped_permutation(
            shuffle_steps(n, draws, (steps - 1) as nat),
            n as int,
            steps - 1,
            draws[steps - 1],
        );
    }
}

/// The exchange shuffle is a bijection on the indices, whatever was drawn.
pub proof fn lemma_shuffle_order_permutation(draws: Seq<int>)
    requires
        valid_draws(draws, draws.len() as int),
    ensures
        is_permutation(shuffle_order(draws), draws.len() as int),
{
    lemma_shuffle_steps_permutation(draws.len(), draws, draws.len());
}

/// Step `k` settles position `k`: it receives what stood at the drawn
/// position, and no later step moves it.
proof fn lemma_shuffle_steps_settle(n: nat, draws: Seq<int>, k: int, steps: nat)
    requires
        valid_draws_upto(draws, n as int, steps as int),
        0 <= k < steps,
    ensures
        shuffle_steps(n, draws, steps)[k] == shuffle_steps(n, draws, k as nat)[draws[k]],
    decreases steps,
{
    lemma_shuffle_steps_permutation(n, draws, (steps - 1) as nat);
    if k < steps - 1 {
        lemma_shuffle_steps_settle(n, draws, k, (steps - 1) as nat);
    }
}

/// The first `k` steps depend on the first `k` draws alone.
proof fn lemma_shuffle_steps_agree(n: nat, d1: Seq<int>, d2: Seq<int>, k: nat)
    requires
        forall|i: int| 0 <= i < k ==> d1[i] == d2[i],
    ensures
        shuffle_steps(n, d1, k) == shuffle_steps(n, d2, k),
    decreases k,
{
    if k > 0 {
        lemma_shuffle_steps_agree(n, d1, d2, (k - 1) as nat);
    }
}

proof fn lemma_equal_orders_equal_draws(d1: Seq<int>, d2: Seq<int>, k: nat)
    requires
        valid_draws(d1, d1.len() as int),
        valid_draws(d2, d1.len() as int),
        shuffle_order(d1) == shuffle_order(d2),
        k <= d1.len(),
    ensures
        forall|i: int| 0 <= i < k ==> d1[i] == d2[i],
    decreases k,
{
    if k > 0 {
        let n = d1.len();
        let at = (k - 1) as nat;
        lemma_equal_orders_equal_draws(d1, d2, at);
        lemma_shuffle_steps_agree(n, d1, d2, at);
        lemma_shuffle_steps_settle(n, d1, at as int, n);
        lemma_shuffle_steps_settle(n, d2, at as int, n);
        lemma_shuffle_steps_permutation(n, d1, at);
        let stage = shuffle_steps(n, d1, at);
        assert(stage[d1[at as int]] == stage[d2[at as int]]);
        if d1[at as int] < d2[at as int] {
            assert(stage[d1[at as int]] != stage[d2[at as int]]);
        } else if d2[at as int] < d1[at as int] {
            assert(stage[d2[at as int]] != stage[d1[at as int]]);
        }
    }
}

/// No two lists of draws give the same order.
pub proof fn lemma_shuffle_order_injective(d1: Seq<int>, d2: Seq<int>)
    requires
        valid_draws(d1, d1.len() as int),
        valid_draws(d2, d1.len() as int),
        shuffle_order(d1) == shuffle_order(d2),
    ensures
        d1 == d2,
{
    lemma_equal_orders_equal_draws(d1, d2, d1.len());
    assert(d1 =~= d2);
}

/// The first `k` draws of the list that makes the exchange shuffle produce
/// `q`: each draw is the position at which the index wanted next stands.
pub open spec fn draws_reaching(q: Seq<int>, k: nat) -> Seq<int>
    decreases k,
{
    if k == 0 {
        Seq::empty()
    } else {
        let before = draws_reaching(q, (k - 1) as nat);
        before.push(position_of(shuffle_steps(q.len(), before, (k - 1) as nat), q[k - 1]))
    }
}

proof fn lemma_draws_reaching(q: Seq<int>, k: nat)
    requires
        is_permutation(q, q.len() as int),
        k <= q.len(),
    ensures
        draws_reaching(q, k).len() == k,
        valid_draws_upto(draws_reaching(q, k), q.len() as int, k as int),
        forall|i: int| 0 <= i < k ==> shuffle_steps(q.len(), draws_reaching(q, k), k)[i] == q[i],
    decreases k,
{
    if k > 0 {
        let n = q.len();
        let at = (k - 1) as nat;
        let before = draws_reaching(q, at);
        let draws = draws_reaching(q, k);
        lemma_draws_reaching(q, at);
        lemma_shuffle_steps_permutation(n, before, at);
        let stage = shuffle_steps(n, before, at);
        let j = position_of(stage, q[at as int]);
        lemma_position_of(stage, n as int, q[at as int]);
        if j < at {
            assert(stage[j] == q[j]);
            assert(q[j] != q[at as int]);
        }
        assert(draws == before.push(j));
        lemma_shuffle_steps_agree(n, before, draws, at);
        assert(shuffle_steps(n, draws, k) == swapped(stage, at as int, j));
    }
}

/// Every permutation is the order that some list of draws gives.
pub proof fn lemma_shuffle_order_surjective(q: Seq<int>)
    requires
        is_permutation(q, q.len() as int),
    ensures
        valid_draws(draws_reaching(q, q.len()), q.len() as int),
        shuffle_order(draws_reaching(q, q.len())) == q,
{
    let draws = draws_reaching(q, q.len());
    lemma_draws_reaching(q, q.len());
    lemma_shuffle_steps_permutation(q.len(), draws, q.len());
    assert(shuffle_order(draws) =~= q);
}

/// A permutation reaches every index: each `v` below `n` sits at exactly
/// the position `position_of(p, v)`.
pub proof fn lemma_position_of(p: Seq<int>, n: int, v: int)
    requires
        is_permutation(p, n),
        0 <= v < n,
    ensures
        0 <= position_of(p, v) < n,
        p[position_of(p, v)] == v,
        forall|k: int| 0 <= k < n && p[k] == v ==> k == position_of(p, v),
{
    let range = set_int_range(0, n);
    lemma_int_range(0, n);
    assert(p.no_duplicates());
    p.unique_seq_to_set();
    seq_to_set_is_finite(p);
    assert forall|x: int| p.to_set().contains(x) implies range.contains(x) by {
        let k = choose|k: int| 0 <= k < p.len() && p[k] == x;
        assert(0 <= p[k] < n);
    }
    lemma_subset_equality(p.to_set(), range);
    assert(range.contains(v));
    assert(p.to_set().contains(v));
    assert(p.contains(v));
    let w = position_of(p, v);
    assert(0 <= w < n && p[w] == v);
    assert forall|k: int| 0 <= k < n && p[k] == v implies k == w by {
        if k < w {
            assert(p[k] != p[w]);
        } else if w < k {
            assert(p[w] != p[k]);
        }
    }
}

/// `p` without its last entry, renumbered for a sequence that lost the
/// element at `p.last()`.
spec fn without_last(p: Seq<int>) -> Seq<int> {
    Seq::new(
        (p.len() - 1) as nat,
        |k: int|
            if p[k] > p.last() {
                p[k] - 1
            } else {
                p[k]
            },
    )
}

proof fn lemma_without_last(p: Seq<int>, n: int)
    requires
        is_permutation(p, n),
        n > 0,
    ensures
        is_permutation(without_last(p), n - 1),
{
    let q = without_last(p);
    let last = p.last();
    assert forall|k: int| 0 <= k < n - 1 implies 0 <= #[trigger] q[k] < n - 1 by {
        assert(p[k] != p[n - 1]);
    }
    assert forall|a: int, b: int| 0 <= a < b < n - 1 implies q[a] != q[b] by {
        assert(p[a] != p[b]);
        assert(p[a] != p[n - 1]);
        assert(p[b] != p[n - 1]);
    }
}

/// Reordering by a permutation keeps every element, with its multiplicity.
pub proof fn lemma_reorder_multiset<T>(s: Seq<T>, p: Seq<int>)
    requires
        is_permutation(p, s.len() as int),
    ensures
        reorder(s, p).to_multiset() == s.to_multiset(),
    decreases s.len(),
{
    let n = s.len() as int;
    let t = reorder(s, p);
    if n == 0 {
        assert(t =~= s);
    } else {
        let i = p.last();
        let rest = s.remove(i);
        let q = without_last(p);
        lemma_without_last(p, n);
        lemma_reorder_multiset(rest, q);
        assert(reorder(rest, q) =~= t.drop_last()) by {
            assert forall|k: int| 0 <= k < n - 1 implies reorder(rest, q)[k] == t[k] by {
                assert(p[k] != p[n - 1]);
            }
        }
        assert(t =~= t.drop_last().push(s[i]));
        to_multiset_build(t.drop_last(), s[i]);
        to_multiset_remove(s, i);
        to_multiset_contains(s, s[i]);
        assert(s.contains(s[i]));
        assert(s.to_multiset().remove(s[i]).insert(s[i]) =~= s.to_multiset());
    }
}

/// Builds the order of the exchange shuffle from its draws: starting from
/// `0, 1, ..`, step `i` exchanges position `i` with position `draws[i]`.
///
/// The draws are accepted when each `draws[i]` lies in `[i, draws.len())`.
pub fn order_from_draws(draws: &Vec<usize>) -> (r: Option<Vec<usize>>)
    ensures
        r.is_some() <==> valid_draws(as_ints(draws@), draws.len() as int),
        r matches Some(p) ==> as_ints(p@) == shuffle_order(as_ints(draws@)),
{
    let n = draws.len();
    let mut p: Vec<usize> = Vec::new();
    let mut k: usize = 0;
    while k < n
        invariant
            k <= n,
            p.len() == k,
            forall|j: int| 0 <= j < k ==> p[j] == j,
        decreases n - k,
    {
        p.push(k);
        k += 1;
    }
    assert(as_ints(p@) =~= identity(n as nat));
    let mut i: usize = 0;
    while i < n
        invariant
            i <= n,
            n == draws.len(),
            p.len() == n,
            forall|k: int| 0 <= k < i ==> k <= #[trigger] as_ints(draws@)[k] < n,
            as_ints(p@) == shuffle_steps(n as nat, as_ints(draws@), i as nat),
        decreases n - i,
    {
        let j = draws[i];
        if j < i || j >= n {
            assert(!(i <= as_ints(draws@)[i as int] < n));
            return None;
        }
        let a = p[i];
        let b = p[j];
        let ghost before = as_ints(p@);
        p.set(i, b);
        p.set(j, a);
        assert(as_ints(p@) =~= swapped(before, i as int, j as int));
        assert(as_ints(draws@)[i as int] == j);
        i += 1;
    }
    Some(p)
}

/// Draws a uniformly shuffled order of `0..n`: for each position `i` in
/// turn, a position is drawn from `[i, n)` and the two are exchanged.
///
/// Whatever is drawn, the result is an outcome of the exchange shuffle and
/// so a permutation.
pub fn random_order(n: usize) -> (p: Vec<usize>)
    ensures
        is_permutation(as_ints(p@), n as int),
        exists|d: Seq<int>| valid_draws(d, n as int) && as_ints(p@) == shuffle_order(d),
{
    let mut draws: Vec<usize> = Vec::new();
    let mut i: usize = 0;
    while i < n
        invariant
            i <= n,
            draws.len() == i,
            forall|k: int| 0 <= k < i ==> k <= #[trigger] draws[k] < n,
        decreases n - i,
    {
        let r = draw_below(n - i);
        draws.push(r + i);
        i += 1;
    }
    let ghost d = as_ints(draws@);
    assert(valid_draws(d, n as int));
    proof {
        lemma_shuffle_order_permutation(d);
    }
    let r = order_from_draws(&draws);
    r.unwrap()
}

/// Tells whether `p` lists every index below `n` exactly once.
#[verifier::loop_isolation(false)]
pub fn check_permutation(p: &Vec<usize>, n: usize) -> (b: bool)
    ensures
        b == is_permutation(as_ints(p@), n as int),
{
    if p.len() != n {
        return false;
    }
    let ghost ints = as_ints(p@);
    let mut b: usize = 0;
    while b < n
        invariant
            b <= n,
            forall|k: int| 0 <= k < b ==> 0 <= #[trigger] ints[k] < n,
            forall|x: int, y: int| 0 <= x < y < b ==> ints[x] != ints[y],
        decreases n - b,
    {
        if p[b] >= n {
            assert(!(0 <= ints[b as int] < n));
            return false;
        }
        let mut a: usize = 0;
        while a < b
            invariant
                a <= b,
                forall|x: int| 0 <= x < a ==> ints[x] != ints[b as int],
            decreases b - a,
        {
            if p[a] == p[b] {
                assert(ints[a as int] == ints[b as int]);
                return false;
            }
            a += 1;
        }
        b += 1;
    }
    true
}

} // verus!
