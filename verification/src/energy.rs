//! The energy of a placement: how many pairs of queens attack each other.
//!
//! The energy is defined as the size of a set of index pairs, so it does not
//! depend on any order of enumeration. The counting functions below describe
//! the sums that the executable code forms, and the lemmas relate the two.

use vstd::prelude::*;
use vstd::set_lib::lemma_set_disjoint_lens;
use crate::queen::{attacks, Queen};

verus! {

/// The pairs `(j, i)` of queen indices with `j < i` whose queens attack each
/// other. A pair of one queen with itself is never in it.
pub open spec fn conflict_set(qs: Seq<Queen>) -> Set<(int, int)> {
    Set::new(|p: (int, int)| 0 <= p.0 < p.1 < qs.len() && attacks(qs[p.0], qs[p.1]))
}

/// The energy of a placement: the number of unordered pairs of queens that
/// attack each other.
pub open spec fn energy(qs: Seq<Queen>) -> nat {
    conflict_set(qs).len()
}

/// A placement is a solution when no pair of queens is in conflict.
pub open spec fn is_solution(qs: Seq<Queen>) -> bool {
    energy(qs) == 0
}

/// Every coordinate of every queen is below `n`.
pub open spec fn within(qs: Seq<Queen>, n: int) -> bool {
    forall|i: int| 0 <= i < qs.len() ==> (#[trigger] qs[i]).x < n && qs[i].y < n
}

/// A placement of `n` queens on the `n` by `n` squares.
pub open spec fn placed(qs: Seq<Queen>, n: int) -> bool {
    qs.len() == n && within(qs, n)
}

/// The `n` by `n` squares admit a solution with `n` queens.
pub open spec fn solvable(n: int) -> bool {
    exists|qs: Seq<Queen>| #[trigger] placed(qs, n) && is_solution(qs)
}

/// One if the two queens attack each other, zero if not.
pub open spec fn hit(a: Queen, b: Queen) -> int {
    if attacks(a, b) {
        1
    } else {
        0
    }
}

/// How many of the first `k` queens attack a queen standing at `q`.
pub open spec fn attackers(qs: Seq<Queen>, q: Queen, k: int) -> int
    decreases k,
{
    if k <= 0 {
        0
    } else {
        attackers(qs, q, k - 1) + hit(qs[k - 1], q)
    }
}

/// How many of the first `k` queens, the queen with index `skip` left out,
/// attack a queen standing at `q`.
pub open spec fn rivals(qs: Seq<Queen>, q: Queen, skip: int, k: int) -> int
    decreases k,
{
    if k <= 0 {
        0
    } else {
        rivals(qs, q, skip, k - 1) + if k - 1 != skip {
            hit(qs[k - 1], q)
        } else {
            0
        }
    }
}

/// The attacking pairs among the first `n` queens, counted queen by queen:
/// each queen against those before it.
pub open spec fn pairs(qs: Seq<Queen>, n: int) -> int
    decreases n,
{
    if n <= 0 {
        0
    } else {
        pairs(qs, n - 1) + attackers(qs, qs[n - 1], n - 1)
    }
}

/// The change of energy when queen `k` goes to `q`: the other queens that
/// attack the new square, less the other queens that attack the old one.
pub open spec fn move_delta(qs: Seq<Queen>, k: int, q: Queen) -> int {
    rivals(qs, q, k, qs.len() as int) - rivals(qs, qs[k], k, qs.len() as int)
}

/// The largest energy that `n` queens can have: every pair in conflict.
pub open spec fn max_energy(n: int) -> int {
    n * (n - 1) / 2
}

/// Among the first `k` queens at most `k` attack a square.
pub proof fn lemma_attackers_bounds(qs: Seq<Queen>, q: Queen, k: int)
    ensures
        0 <= attackers(qs, q, k),
        attackers(qs, q, k) <= if k <= 0 { 0 } else { k },
    decreases k,
{
    if k > 0 {
        lemma_attackers_bounds(qs, q, k - 1);
    }
}

/// Among the first `k` queens without the queen `skip` at most `k` attack a
/// square, and at most `k - 1` if `skip` is one of them.
pub proof fn lemma_rivals_bounds(qs: Seq<Queen>, q: Queen, skip: int, k: int)
    ensures
        0 <= rivals(qs, q, skip, k),
        rivals(qs, q, skip, k) <= if k <= 0 { 0 } else if 0 <= skip < k { k - 1 } else { k },
    decreases k,
{
    if k > 0 {
        lemma_rivals_bounds(qs, q, skip, k - 1);
    }
}

/// Leaving one queen out of the count takes away its own hit and no other.
pub proof fn lemma_rivals_as_attackers(qs: Seq<Queen>, q: Queen, skip: int, k: int)
    ensures
        rivals(qs, q, skip, k) == attackers(qs, q, k) - if 0 <= skip < k {
            hit(qs[skip], q)
        } else {
            0
        },
    decreases k,
{
    if k > 0 {
        lemma_rivals_as_attackers(qs, q, skip, k - 1);
    }
}

/// Among `n` queens at most `n * (n - 1) / 2` pairs attack each other.
pub proof fn lemma_pairs_bounds(qs: Seq<Queen>, n: int)
    requires
        0 <= n,
    ensures
        0 <= pairs(qs, n),
        2 * pairs(qs, n) <= n * (n - 1),
        pairs(qs, n) <= max_energy(n),
    decreases n,
{
    if n > 0 {
        lemma_pairs_bounds(qs, n - 1);
        lemma_attackers_bounds(qs, qs[n - 1], n - 1);
        assert((n - 1) * (n - 2) + 2 * (n - 1) == n * (n - 1)) by (nonlinear_arith);
    } else {
        assert(n * (n - 1) == 0) by (nonlinear_arith)
            requires
                n == 0,
        ;
    }
}

/// The pairs among as many queens as a vector can hold fit 127 bits.
pub proof fn lemma_pairs_fit(qs: Seq<Queen>, n: int)
    requires
        0 <= n <= usize::MAX,
    ensures
        pairs(qs, n) <= i128::MAX,
{
    lemma_pairs_bounds(qs, n);
    assert(n * (n - 1) < 0x1_0000_0000_0000_0000 * 0x1_0000_0000_0000_0000) by (nonlinear_arith)
        requires
            0 <= n <= 0xffff_ffff_ffff_ffff,
    ;
}

/// Moving queen `m` changes the count of attackers of `t` among the first
/// `k` queens only if `m` is one of them.
proof fn lemma_attackers_after_move(qs: Seq<Queen>, m: int, q: Queen, t: Queen, k: int)
    requires
        0 <= m < qs.len(),
        k <= qs.len(),
    ensures
        attackers(qs.update(m, q), t, k) == attackers(qs, t, k) + if m < k {
            hit(q, t) - hit(qs[m], t)
        } else {
            0
        },
    decreases k,
{
    if k > 0 {
        lemma_attackers_after_move(qs, m, q, t, k - 1);
    }
}

/// The pair count among the first `n` queens after queen `m` went to `q`.
proof fn lemma_pairs_after_move(qs: Seq<Queen>, m: int, q: Queen, n: int)
    requires
        0 <= m < qs.len(),
        0 <= n <= qs.len(),
    ensures
        pairs(qs.update(m, q), n) == pairs(qs, n) + if n <= m {
            0
        } else {
            rivals(qs, q, m, n) - rivals(qs, qs[m], m, n)
        },
    decreases n,
{
    if n > 0 {
        let moved = qs.update(m, q);
        lemma_pairs_after_move(qs, m, q, n - 1);
        lemma_attackers_after_move(qs, m, q, moved[n - 1], n - 1);
        if n - 1 == m {
            lemma_rivals_as_attackers(qs, q, m, m);
            lemma_rivals_as_attackers(qs, qs[m], m, m);
        }
    }
}

/// The conflicting pairs whose later queen is among the first `n`.
spec fn conflicts_below(qs: Seq<Queen>, n: int) -> Set<(int, int)> {
    Set::new(|p: (int, int)| 0 <= p.0 < p.1 < n && attacks(qs[p.0], qs[p.1]))
}

/// The conflicting pairs of queen `i` with the first `k` queens.
spec fn conflicts_of(qs: Seq<Queen>, i: int, k: int) -> Set<(int, int)> {
    Set::new(|p: (int, int)| p.1 == i && 0 <= p.0 < k && attacks(qs[p.0], qs[i]))
}

proof fn lemma_conflicts_of(qs: Seq<Queen>, i: int, k: int)
    requires
        k <= i,
    ensures
        conflicts_of(qs, i, k).finite(),
        conflicts_of(qs, i, k).len() == attackers(qs, qs[i], k),
    decreases k,
{
    if k <= 0 {
        assert(conflicts_of(qs, i, k) =~= Set::empty());
    } else {
        lemma_conflicts_of(qs, i, k - 1);
        let before = conflicts_of(qs, i, k - 1);
        if attacks(qs[k - 1], qs[i]) {
            assert(conflicts_of(qs, i, k) =~= before.insert((k - 1, i)));
        } else {
            assert(conflicts_of(qs, i, k) =~= before);
        }
    }
}

proof fn lemma_conflicts_below(qs: Seq<Queen>, n: int)
    ensures
        conflicts_below(qs, n).finite(),
        conflicts_below(qs, n).len() == pairs(qs, n),
    decreases n,
{
    if n <= 0 {
        assert(conflicts_below(qs, n) =~= Set::empty());
    } else {
        lemma_conflicts_below(qs, n - 1);
        lemma_conflicts_of(qs, n - 1, n - 1);
        let earlier = conflicts_below(qs, n - 1);
        let latest = conflicts_of(qs, n - 1, n - 1);
        assert(conflicts_below(qs, n) =~= earlier + latest);
        assert(earlier.disjoint(latest));
        lemma_set_disjoint_lens(earlier, latest);
    }
}

/// Counting queen by queen, each against those before it, gives the energy:
/// the size of the conflict set, which knows of no order.
pub proof fn lemma_energy_is_pairs(qs: Seq<Queen>)
    ensures
        conflict_set(qs).finite(),
        energy(qs) == pairs(qs, qs.len() as int),
{
    lemma_conflicts_below(qs, qs.len() as int);
    assert(conflict_set(qs) =~= conflicts_below(qs, qs.len() as int));
}

/// The energy of `n` queens lies between zero and `n * (n - 1) / 2`.
pub proof fn lemma_energy_bounds(qs: Seq<Queen>)
    ensures
        0 <= energy(qs) <= max_energy(qs.len() as int),
        2 * energy(qs) <= qs.len() * (qs.len() - 1),
{
    lemma_energy_is_pairs(qs);
    lemma_pairs_bounds(qs, qs.len() as int);
}

/// The energy of a placement that a vector holds fits 127 bits.
pub proof fn lemma_energy_fits(qs: Seq<Queen>)
    requires
        qs.len() <= usize::MAX,
    ensures
        energy(qs) <= i128::MAX,
{
    lemma_energy_is_pairs(qs);
    lemma_pairs_fit(qs, qs.len() as int);
}

/// Moving one queen changes the energy by exactly the move's delta: the
/// energy of the placement after the move is the energy before it plus
/// `move_delta`.
pub proof fn lemma_energy_after_move(qs: Seq<Queen>, k: int, q: Queen)
    requires
        0 <= k < qs.len(),
    ensures
        energy(qs.update(k, q)) == energy(qs) + move_delta(qs, k, q),
{
    lemma_energy_is_pairs(qs);
    lemma_energy_is_pairs(qs.update(k, q));
    lemma_pairs_after_move(qs, k, q, qs.len() as int);
}

/// The energy is zero exactly when no two queens attack each other.
pub proof fn lemma_solution_has_no_attack(qs: Seq<Queen>)
    ensures
        is_solution(qs) <==> forall|i: int, j: int|
            0 <= i < j < qs.len() ==> !attacks(#[trigger] qs[i], #[trigger] qs[j]),
{
    lemma_energy_is_pairs(qs);
    let set = conflict_set(qs);
    if is_solution(qs) {
        set.lemma_len0_is_empty();
        assert forall|i: int, j: int| 0 <= i < j < qs.len() implies !attacks(
            #[trigger] qs[i],
            #[trigger] qs[j],
        ) by {
            assert(!set.contains((i, j)));
        }
    }
    if forall|i: int, j: int|
        0 <= i < j < qs.len() ==> !attacks(#[trigger] qs[i], #[trigger] qs[j]) {
        assert(set =~= Set::empty());
    }
}

/// A placement in conflict has at least two queens.
pub proof fn lemma_conflict_needs_two(qs: Seq<Queen>)
    requires
        !is_solution(qs),
    ensures
        qs.len() >= 2,
{
    lemma_energy_bounds(qs);
    let n = qs.len() as int;
    if n < 2 {
        assert(n * (n - 1) == 0) by (nonlinear_arith)
            requires
                n == 0 || n == 1,
        ;
    }
}

/// A pair of indices with the smaller index first.
pub open spec fn unordered(p: (int, int)) -> (int, int) {
    if p.0 <= p.1 {
        p
    } else {
        (p.1, p.0)
    }
}

/// `order` lists every pair of two different queens among `n` exactly once,
/// in whatever order and either way round.
pub open spec fn enumerates_pairs(order: Seq<(int, int)>, n: int) -> bool {
    let sorted = order.map_values(|p: (int, int)| unordered(p));
    &&& sorted.no_duplicates()
    &&& forall|p: (int, int)| sorted.contains(p) <==> 0 <= p.0 < p.1 < n
}

/// How many entries of `order` are pairs of queens that attack each other.
pub open spec fn tally(qs: Seq<Queen>, order: Seq<(int, int)>) -> int
    decreases order.len(),
{
    if order.len() == 0 {
        0
    } else {
        tally(qs, order.drop_last()) + hit(qs[order.last().0], qs[order.last().1])
    }
}

/// The conflicts met among the first `k` entries of `order`.
spec fn met(qs: Seq<Queen>, order: Seq<(int, int)>, k: int) -> Set<(int, int)> {
    Set::new(
        |p: (int, int)|
            conflict_set(qs).contains(p) && exists|i: int|
                0 <= i < k && unordered(#[trigger] order[i]) == p,
    )
}

proof fn lemma_met(qs: Seq<Queen>, order: Seq<(int, int)>, k: int)
    requires
        enumerates_pairs(order, qs.len() as int),
        0 <= k <= order.len(),
    ensures
        met(qs, order, k).finite(),
        met(qs, order, k).len() == tally(qs, order.take(k)),
    decreases k,
{
    if k == 0 {
        assert(met(qs, order, k) =~= Set::empty());
    } else {
        lemma_met(qs, order, k - 1);
        let sorted = order.map_values(|p: (int, int)| unordered(p));
        let u = unordered(order[k - 1]);
        let before = met(qs, order, k - 1);
        assert(order.take(k).drop_last() =~= order.take(k - 1));
        assert(sorted[k - 1] == u);
        assert(sorted.contains(u));
        assert(!before.contains(u)) by {
            if before.contains(u) {
                let i = choose|i: int| 0 <= i < k - 1 && unordered(#[trigger] order[i]) == u;
                assert(sorted[i] == sorted[k - 1]);
            }
        }
        if attacks(qs[u.0], qs[u.1]) {
            assert(met(qs, order, k) =~= before.insert(u));
        } else {
            assert(met(qs, order, k) =~= before);
        }
    }
}

/// The energy does not depend on the order in which the pairs are visited:
/// whoever visits every pair of two different queens once, in any order and
/// with either queen first, and counts the pairs that attack each other,
/// counts the energy.
pub proof fn lemma_energy_in_any_order(qs: Seq<Queen>, order: Seq<(int, int)>)
    requires
        enumerates_pairs(order, qs.len() as int),
    ensures
        tally(qs, order) == energy(qs),
{
    let sorted = order.map_values(|p: (int, int)| unordered(p));
    lemma_met(qs, order, order.len() as int);
    assert(order.take(order.len() as int) =~= order);
    assert forall|p: (int, int)| conflict_set(qs).contains(p) implies met(
        qs,
        order,
        order.len() as int,
    ).contains(p) by {
        assert(sorted.contains(p));
        let i = choose|i: int| 0 <= i < sorted.len() && sorted[i] == p;
        assert(unordered(order[i]) == p);
    }
    assert(met(qs, order, order.len() as int) =~= conflict_set(qs));
}

} // verus!
