//! A board: N queens and the energy of their placement, kept up to date
//! move by move.

use vstd::prelude::*;
use crate::acceptance::{admits, Boltzmann};
use crate::energy::{
    attackers, energy, is_solution, lemma_energy_after_move, lemma_energy_bounds,
    lemma_energy_fits, lemma_energy_is_pairs, lemma_pairs_fit, lemma_rivals_bounds, max_energy,
    move_delta, pairs, rivals,
};
use crate::queen::Queen;

verus! {

/// N queens, one for each index below N. Queens may share squares, rows and
/// columns: that is what the energy counts.
///
/// The stored energy always equals the energy of the stored placement. The
/// fields are private and every operation keeps the two in step, so a `Board`
/// with a stale energy cannot be built.
pub struct Board {
    queens: Vec<Queen>,
    e: i128,
}

impl View for Board {
    type V = Seq<Queen>;

    /// The placement: the queen of each index.
    closed spec fn view(&self) -> Seq<Queen> {
        self.queens@
    }
}

/// While the pairs of queen `i` with the `j` queens before it are being
/// added, the count stays within the pairs among the first `i + 1` queens,
/// and those fit the counter.
proof fn lemma_count_fits(qs: Seq<Queen>, i: int, j: int)
    requires
        0 <= j <= i < qs.len() <= usize::MAX,
    ensures
        pairs(qs, i) + attackers(qs, qs[i], j) <= pairs(qs, i + 1) <= i128::MAX,
    decreases i - j,
{
    if j < i {
        lemma_count_fits(qs, i, j + 1);
    } else {
        lemma_pairs_fit(qs, i + 1);
    }
}

/// Counts the attacking pairs of a placement, each queen against those
/// before it.
fn count_conflicts(queens: &Vec<Queen>) -> (e: i128)
    ensures
        e == energy(queens@),
{
    let n = queens.len();
    let mut e: i128 = 0;
    let mut i: usize = 0;
    while i < n
        invariant
            i <= n,
            n == queens@.len(),
            e == pairs(queens@, i as int),
        decreases n - i,
    {
        let mut j: usize = 0;
        while j < i
            invariant
                j <= i < n,
                n == queens@.len(),
                e == pairs(queens@, i as int) + attackers(queens@, queens@[i as int], j as int),
            decreases i - j,
        {
            if queens[i].clash(&queens[j]) {
                proof {
                    lemma_count_fits(queens@, i as int, j as int + 1);
                }
                e += 1;
            }
            j += 1;
        }
        i += 1;
    }
    proof {
        lemma_energy_is_pairs(queens@);
    }
    e
}

/// Puts queen `qn` on a new square and adds the move's delta to the energy,
/// both in one step.
fn relocate(queens: &mut Vec<Queen>, e: &mut i128, qn: usize, q: Queen, de: i128)
    requires
        qn < old(queens)@.len(),
        i128::MIN <= *old(e) + de <= i128::MAX,
    ensures
        final(queens)@ == old(queens)@.update(qn as int, q),
        *final(e) == *old(e) + de,
    no_unwind
{
    *e = *e + de;
    queens[qn] = q;
}

impl Board {
    #[verifier::type_invariant]
    spec fn consistent(&self) -> bool {
        self.e == energy(self.queens@)
    }

    /// A board with the given queens. Its energy is counted over all pairs.
    pub fn new(queens: Vec<Queen>) -> (board: Board)
        ensures
            board@ == queens@,
    {
        let e = count_conflicts(&queens);
        Board { queens, e }
    }

    /// The number of queens.
    pub fn len(&self) -> (n: usize)
        ensures
            n == self@.len(),
    {
        self.queens.len()
    }

    /// The queen with index `i`.
    pub fn queen(&self, i: usize) -> (q: Queen)
        requires
            i < self@.len(),
        ensures
            q == self@[i as int],
    {
        self.queens[i]
    }

    /// The queens, by index.
    pub fn queens(&self) -> (qs: &Vec<Queen>)
        ensures
            qs@ == self@,
    {
        &self.queens
    }

    /// The energy of the placement, as kept by the board.
    pub fn energy(&self) -> (e: i128)
        ensures
            e == energy(self@),
            0 <= e <= max_energy(self@.len() as int),
    {
        proof {
            use_type_invariant(self);
            lemma_energy_bounds(self@);
        }
        self.e
    }

    /// Whether no two queens attack each other.
    pub fn is_solved(&self) -> (solved: bool)
        ensures
            solved == is_solution(self@),
    {
        proof {
            use_type_invariant(self);
        }
        self.e == 0
    }

    /// The energy counted anew over all pairs of queens. It equals the energy
    /// that the board keeps.
    pub fn calc_e(&self) -> (e: i128)
        ensures
            e == energy(self@),
    {
        count_conflicts(&self.queens)
    }

    /// The change of energy that moving queen `qn` to `(xnew, ynew)` would
    /// bring. The board is left as it is.
    pub fn de_move(&self, qn: usize, xnew: usize, ynew: usize) -> (de: i128)
        requires
            qn < self@.len(),
        ensures
            de == move_delta(self@, qn as int, Queen { x: xnew, y: ynew }),
            de == energy(self@.update(qn as int, Queen { x: xnew, y: ynew })) - energy(self@),
            -(self@.len() as int) < de < self@.len() as int,
    {
        let newqueen = Queen { x: xnew, y: ynew };
        let oldqueen = self.queens[qn];
        let n = self.queens.len();
        let mut de: i128 = 0;
        let mut i: usize = 0;
        while i < n
            invariant
                i <= n,
                qn < n,
                n == self.queens@.len(),
                oldqueen == self.queens@[qn as int],
                de == rivals(self.queens@, newqueen, qn as int, i as int) - rivals(
                    self.queens@,
                    oldqueen,
                    qn as int,
                    i as int,
                ),
            decreases n - i,
        {
            proof {
                lemma_rivals_bounds(self.queens@, newqueen, qn as int, i as int);
                lemma_rivals_bounds(self.queens@, oldqueen, qn as int, i as int);
            }
            if i != qn {
                if self.queens[i].clash(&oldqueen) {
                    de -= 1;
                }
                if self.queens[i].clash(&newqueen) {
                    de += 1;
                }
            }
            i += 1;
        }
        proof {
            lemma_rivals_bounds(self.queens@, newqueen, qn as int, n as int);
            lemma_rivals_bounds(self.queens@, oldqueen, qn as int, n as int);
            lemma_energy_after_move(self.queens@, qn as int, newqueen);
        }
        de
    }

    /// Moves queen `qn` to `(x, y)` and brings the energy up to date by the
    /// move's delta. A move to the square where the queen stands changes
    /// nothing.
    pub fn move_queen(&mut self, qn: usize, x: usize, y: usize)
        requires
            qn < old(self)@.len(),
        ensures
            final(self)@ == old(self)@.update(qn as int, Queen { x, y }),
            energy(final(self)@) == energy(old(self)@) + move_delta(
                old(self)@,
                qn as int,
                Queen { x, y },
            ),
    {
        proof {
            use_type_invariant(&*self);
            assert(self.queens.len() == self@.len());
            lemma_energy_after_move(self@, qn as int, Queen { x, y });
            lemma_energy_fits(self@.update(qn as int, Queen { x, y }));
        }
        if self.queens[qn].x == x && self.queens[qn].y == y {
            assert(self@ =~= self@.update(qn as int, Queen { x, y }));
            return ;
        }
        let de = self.de_move(qn, x, y);
        relocate(&mut self.queens, &mut self.e, qn, Queen { x, y }, de);
    }

    /// Proposes the move of queen `qn` to `(x, y)` and makes it if the
    /// Metropolis rule admits it: always if the move does not raise the
    /// energy, and else if the random bits `draw` fall below the Boltzmann
    /// factor of the rise. Tells whether the queen was moved.
    pub fn propose(&mut self, factors: &Boltzmann, qn: usize, x: usize, y: usize, draw: u32) -> (moved:
        bool)
        requires
            qn < old(self)@.len(),
        ensures
            moved == admits(factors@, move_delta(old(self)@, qn as int, Queen { x, y }), draw),
            move_delta(old(self)@, qn as int, Queen { x, y }) <= 0 ==> moved,
            moved ==> final(self)@ == old(self)@.update(qn as int, Queen { x, y }),
            !moved ==> final(self)@ == old(self)@,
    {
        let de = self.de_move(qn, x, y);
        if factors.accepts(de, draw) {
            self.move_queen(qn, x, y);
            true
        } else {
            false
        }
    }
}

} // verus!
