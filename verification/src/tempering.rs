//! The replica-exchange ensemble: a ladder of boards at rising inverse
//! temperature, each making Metropolis moves of its own, with exchanges of
//! boards between neighbouring positions of the ladder.

use vstd::prelude::*;
use rand::XorShiftRng;
use crate::acceptance::{admits, decide, happens, Boltzmann};
use crate::board::Board;
use crate::chain::{metropolis_move, metropolis_step, moves_made, random_board};
use crate::energy::{energy, is_solution, lemma_conflict_needs_two, placed, solvable};
use crate::queen::Queen;
use crate::sampler::{draw, index_below};

verus! {

/// The inverse temperature β of one position of the ladder, given by what
/// the engine reads of it.
pub struct Temperature {
    /// The Boltzmann factors of β itself. They decide the moves of a queen on
    /// the board at this position.
    pub moves: Boltzmann,
    /// The Boltzmann factors of the step from β to the larger β of the next
    /// position. They decide the exchanges with that position. On the last
    /// position they are not read.
    pub swaps: Boltzmann,
}

/// One position of the ladder: the board that stands there now, and the
/// temperature, which stays.
pub struct Rung {
    pub board: Board,
    pub temperature: Temperature,
}

/// The ladder, from the hottest position to the coldest, and the probability
/// with which an iteration tries an exchange in place of a move.
pub struct Ensemble {
    rungs: Vec<Rung>,
    swap_odds: u64,
}

impl View for Ensemble {
    type V = Seq<Rung>;

    /// The rungs by position.
    closed spec fn view(&self) -> Seq<Rung> {
        self.rungs@
    }
}

/// The placements of the boards, by position.
pub open spec fn placements(rungs: Seq<Rung>) -> Seq<Seq<Queen>> {
    rungs.map_values(|r: Rung| r.board@)
}

/// The temperatures, by position.
pub open spec fn ladder(rungs: Seq<Rung>) -> Seq<Temperature> {
    rungs.map_values(|r: Rung| r.temperature)
}

/// Some board of the ladder is a solution.
pub open spec fn any_solved(rungs: Seq<Rung>) -> bool {
    exists|r: int| 0 <= r < rungs.len() && is_solution(#[trigger] rungs[r].board@)
}

/// Every board of the ladder has `n` queens on the `n` by `n` squares.
pub open spec fn all_placed(rungs: Seq<Rung>, n: int) -> bool {
    forall|r: int| 0 <= r < rungs.len() ==> placed(#[trigger] rungs[r].board@, n)
}

/// The ladder after the boards at `k` and `k + 1` changed places: each of
/// the two positions keeps its temperature and holds the other's board.
pub open spec fn exchanged(rungs: Seq<Rung>, k: int) -> Seq<Rung> {
    rungs.update(k, Rung { board: rungs[k + 1].board, temperature: rungs[k].temperature }).update(
        k + 1,
        Rung { board: rungs[k].board, temperature: rungs[k + 1].temperature },
    )
}

/// An exchange moves the two boards and nothing else: the placements at `k`
/// and `k + 1` change places, all other placements and every temperature
/// stay where they are, and no solution appears or goes.
pub proof fn lemma_exchange(rungs: Seq<Rung>, k: int)
    requires
        0 <= k,
        k + 1 < rungs.len(),
    ensures
        placements(exchanged(rungs, k)) == placements(rungs).update(
            k,
            placements(rungs)[k + 1],
        ).update(k + 1, placements(rungs)[k]),
        ladder(exchanged(rungs, k)) == ladder(rungs),
        any_solved(exchanged(rungs, k)) == any_solved(rungs),
        forall|n: int| all_placed(rungs, n) ==> all_placed(exchanged(rungs, k), n),
{
    let after = exchanged(rungs, k);
    assert(placements(after) =~= placements(rungs).update(k, placements(rungs)[k + 1]).update(
        k + 1,
        placements(rungs)[k],
    ));
    assert(ladder(after) =~= ladder(rungs));
    if any_solved(rungs) {
        let r = choose|r: int| 0 <= r < rungs.len() && is_solution(#[trigger] rungs[r].board@);
        let s = if r == k {
            k + 1
        } else if r == k + 1 {
            k
        } else {
            r
        };
        assert(is_solution(after[s].board@));
    }
    if any_solved(after) {
        let r = choose|r: int| 0 <= r < after.len() && is_solution(#[trigger] after[r].board@);
        let s = if r == k {
            k + 1
        } else if r == k + 1 {
            k
        } else {
            r
        };
        assert(is_solution(rungs[s].board@));
    }
    assert forall|n: int| all_placed(rungs, n) implies all_placed(after, n) by {
        assert forall|r: int| 0 <= r < after.len() implies placed(#[trigger] after[r].board@, n) by {
            let s = if r == k {
                k + 1
            } else if r == k + 1 {
                k
            } else {
                r
            };
            assert(placed(rungs[s].board@, n));
        }
    }
}

/// The ladder after the exchange of the boards at `k` and `k + 1` was
/// proposed and decided by the random bits `draw`: the boards have changed
/// places if the Metropolis rule admits the cost under the factors of the
/// step between the two temperatures, and else nothing has changed.
pub open spec fn exchange_outcome(before: Seq<Rung>, k: int, draw: u32) -> Seq<Rung> {
    if admits(
        before[k].temperature.swaps@,
        energy(before[k].board@) - energy(before[k + 1].board@),
        draw,
    ) {
        exchanged(before, k)
    } else {
        before
    }
}

/// One iteration on the drawn position `bn` with the choice bits `bits`
/// leads from `before` to `after`. If the bits fall below `swap_odds`, the
/// iteration is an exchange of the boards at `bn` and `bn + 1`, decided by
/// some further bits; at the last position it is skipped and nothing
/// changes. Otherwise it is one Metropolis move on the board at `bn` under
/// the factors of that position, and every other rung stays.
pub open spec fn iterated(
    before: Seq<Rung>,
    after: Seq<Rung>,
    swap_odds: u64,
    bn: int,
    bits: u32,
) -> bool {
    if happens(swap_odds as int, bits) {
        if bn + 1 < before.len() {
            exists|draw: u32| after == #[trigger] exchange_outcome(before, bn, draw)
        } else {
            after == before
        }
    } else {
        &&& after.len() == before.len()
        &&& forall|r: int| 0 <= r < before.len() && r != bn ==> #[trigger] after[r] == before[r]
        &&& after[bn].temperature == before[bn].temperature
        &&& exists|moved: bool| #[trigger]
            metropolis_step(
                before[bn].board@,
                after[bn].board@,
                moved,
                before[bn].temperature.moves@,
            )
    }
}

/// One iteration leads from `before` to `after`, on some position of the
/// ladder and with some choice bits.
pub open spec fn iteration(before: Seq<Rung>, after: Seq<Rung>, swap_odds: u64) -> bool {
    exists|bn: int, bits: u32|
        0 <= bn < before.len() && #[trigger] iterated(before, after, swap_odds, bn, bits)
}

/// The ladders `states` follow one another by iterations, and none but the
/// last may hold a solution.
pub open spec fn course(states: Seq<Seq<Rung>>, swap_odds: u64) -> bool {
    forall|i: int|
        0 <= i < states.len() - 1 ==> !any_solved(#[trigger] states[i]) && iteration(
            states[i],
            states[i + 1],
            swap_odds,
        )
}

/// Exactly `iterations` iterations lead from `before` to `after`, and no
/// ladder on the way, `before` included, holds a solution.
pub open spec fn coursed(
    before: Seq<Rung>,
    after: Seq<Rung>,
    iterations: int,
    swap_odds: u64,
) -> bool {
    exists|states: Seq<Seq<Rung>>|
        #[trigger] course(states, swap_odds) && states.len() == iterations + 1 && states[0]
            == before && states.last() == after
}

/// A course whose last ladder holds no solution goes on by one more
/// iteration.
proof fn lemma_course_on(
    states: Seq<Seq<Rung>>,
    before: Seq<Rung>,
    after: Seq<Rung>,
    swap_odds: u64,
    bn: int,
    bits: u32,
)
    requires
        course(states, swap_odds),
        states.len() > 0,
        states.last() == before,
        !any_solved(before),
        0 <= bn < before.len(),
        iterated(before, after, swap_odds, bn, bits),
    ensures
        course(states.push(after), swap_odds),
{
    let longer = states.push(after);
    assert forall|i: int| 0 <= i < longer.len() - 1 implies !any_solved(#[trigger] longer[i])
        && iteration(longer[i], longer[i + 1], swap_odds) by {
        if i < states.len() - 1 {
            assert(longer[i] == states[i]);
            assert(longer[i + 1] == states[i + 1]);
        } else {
            assert(longer[i] == before);
            assert(longer[i + 1] == after);
        }
    }
}

impl Rung {
    /// One Metropolis move on this rung's board, decided by the factors of
    /// this rung's temperature. Tells whether a queen was moved.
    pub fn local_move(&mut self, rng: &mut XorShiftRng) -> (moved: bool)
        requires
            old(self).board@.len() > 0,
        ensures
            metropolis_step(
                old(self).board@,
                final(self).board@,
                moved,
                old(self).temperature.moves@,
            ),
            final(self).temperature == old(self).temperature,
            final(self).board@.len() == old(self).board@.len(),
            !moved ==> final(self).board@ == old(self).board@,
            forall|n: int| placed(old(self).board@, n) ==> placed(final(self).board@, n),
    {
        metropolis_move(&mut self.board, &self.temperature.moves, rng)
    }
}

impl Ensemble {
    /// The probability with which an iteration tries an exchange.
    pub closed spec fn swap_odds(&self) -> u64 {
        self.swap_odds
    }

    /// The ensemble of the given rungs, the hottest first.
    pub fn new(rungs: Vec<Rung>, swap_odds: u64) -> (ensemble: Ensemble)
        ensures
            ensemble@ == rungs@,
            ensemble.swap_odds() == swap_odds,
    {
        Ensemble { rungs, swap_odds }
    }

    /// An ensemble with one random board of `board_size` queens for each
    /// temperature of `ladder`, in the ladder's order.
    pub fn random(
        board_size: usize,
        ladder: Vec<Temperature>,
        swap_odds: u64,
        rng: &mut XorShiftRng,
    ) -> (ensemble: Ensemble)
        ensures
            self::ladder(ensemble@) == ladder@,
            ensemble.swap_odds() == swap_odds,
            all_placed(ensemble@, board_size as int),
    {
        let mut rungs: Vec<Rung> = Vec::new();
        for temperature in it: ladder
            invariant
                rungs@.len() == it.index(),
                it.seq() == ladder@,
                forall|r: int| 0 <= r < rungs@.len() ==> (#[trigger] rungs@[r]).temperature == ladder@[r],
                all_placed(rungs@, board_size as int),
        {
            let board = random_board(board_size, rng);
            rungs.push(Rung { board, temperature });
        }
        assert(self::ladder(rungs@) =~= ladder@);
        Ensemble { rungs, swap_odds }
    }

    /// The number of rungs.
    pub fn len(&self) -> (n: usize)
        ensures
            n == self@.len(),
    {
        self.rungs.len()
    }

    /// The rung at position `r`.
    pub fn rung(&self, r: usize) -> (rung: &Rung)
        requires
            r < self@.len(),
        ensures
            *rung == self@[r as int],
    {
        &self.rungs[r]
    }

    /// The first position whose board is a solution, if there is one.
    pub fn solved_rung(&self) -> (found: Option<usize>)
        ensures
            match found {
                Some(r) => r < self@.len() && is_solution(self@[r as int].board@) && forall|s: int|
                    0 <= s < r ==> !is_solution(#[trigger] self@[s].board@),
                None => !any_solved(self@),
            },
    {
        let n = self.rungs.len();
        let mut r: usize = 0;
        while r < n
            invariant
                r <= n,
                n == self@.len(),
                forall|s: int| 0 <= s < r ==> !is_solution(#[trigger] self@[s].board@),
            decreases n - r,
        {
            if self.rungs[r].board.is_solved() {
                return Some(r);
            }
            r += 1;
        }
        None
    }

    /// What an exchange of the boards at `k` and `k + 1` costs: the energy
    /// that would go from the hotter position `k` to the colder one.
    pub fn exchange_cost(&self, k: usize) -> (cost: i128)
        requires
            k + 1 < self@.len(),
        ensures
            cost == energy(self@[k as int].board@) - energy(self@[k + 1].board@),
    {
        assert(self@.len() == self.rungs.len());
        self.rungs[k].board.energy() - self.rungs[k + 1].board.energy()
    }

    /// Exchanges the boards at the positions `k` and `k + 1`. The
    /// temperatures stay with their positions.
    pub fn swap_boards(&mut self, k: usize)
        requires
            k + 1 < old(self)@.len(),
        ensures
            final(self)@ == exchanged(old(self)@, k as int),
            final(self).swap_odds() == old(self).swap_odds(),
    {
        assert(self@.len() == self.rungs.len());
        let mut held = Board::new(Vec::new());
        std::mem::swap(&mut self.rungs[k].board, &mut held);
        std::mem::swap(&mut self.rungs[k + 1].board, &mut held);
        std::mem::swap(&mut self.rungs[k].board, &mut held);
        assert(self@ =~= exchanged(old(self)@, k as int));
    }

    /// Proposes the exchange of the boards at `k` and `k + 1` and makes it if
    /// the Metropolis rule admits its cost under the factors of the step
    /// between the two temperatures: always if the colder position gets the
    /// board of no higher energy, and else if the random bits `draw` fall
    /// below the Boltzmann factor. Tells whether the boards changed places.
    pub fn exchange(&mut self, k: usize, draw: u32) -> (swapped: bool)
        requires
            k + 1 < old(self)@.len(),
        ensures
            swapped == admits(
                old(self)@[k as int].temperature.swaps@,
                energy(old(self)@[k as int].board@) - energy(old(self)@[k + 1].board@),
                draw,
            ),
            energy(old(self)@[k as int].board@) <= energy(old(self)@[k + 1].board@) ==> swapped,
            swapped ==> final(self)@ == exchanged(old(self)@, k as int),
            !swapped ==> final(self)@ == old(self)@,
            final(self).swap_odds() == old(self).swap_odds(),
    {
        let cost = self.exchange_cost(k);
        if self.rungs[k].temperature.swaps.accepts(cost, draw) {
            self.swap_boards(k);
            true
        } else {
            false
        }
    }

    /// One iteration on the drawn position `bn` with the drawn choice bits
    /// `choice`. If the bits fall below the swap odds, it proposes the
    /// exchange of the boards at `bn` and `bn + 1`, decided by further bits
    /// that it draws; at the last position it does nothing, and the iteration
    /// is spent. Otherwise it makes one Metropolis move on the board at `bn`.
    /// Tells whether a board is a solution afterwards.
    pub fn iterate(&mut self, bn: usize, choice: u32, rng: &mut XorShiftRng) -> (solved: bool)
        requires
            bn < old(self)@.len(),
            !any_solved(old(self)@),
        ensures
            iterated(old(self)@, final(self)@, old(self).swap_odds(), bn as int, choice),
            final(self).swap_odds() == old(self).swap_odds(),
            solved == any_solved(final(self)@),
            final(self)@.len() == old(self)@.len(),
            ladder(final(self)@) == ladder(old(self)@),
            forall|n: int| all_placed(old(self)@, n) ==> all_placed(final(self)@, n),
    {
        assert(self@.len() == self.rungs.len());
        if decide(self.swap_odds, choice) {
            if bn + 1 < self.rungs.len() {
                proof {
                    lemma_exchange(self@, bn as int);
                }
                let bits = draw(rng);
                self.exchange(bn, bits);
                assert(self@ == exchange_outcome(old(self)@, bn as int, bits));
            }
            false
        } else {
            proof {
                lemma_conflict_needs_two(self@[bn as int].board@);
            }
            let moved = self.rungs[bn].local_move(rng);
            proof {
                assert(self@ =~= old(self)@.update(bn as int, self@[bn as int]));
                assert(ladder(self@) =~= ladder(old(self)@));
            }
            let solved = moved && self.rungs[bn].board.is_solved();
            proof {
                if any_solved(self@) {
                    let r = choose|r: int|
                        0 <= r < self@.len() && is_solution(#[trigger] self@[r].board@);
                    assert(r == bn) by {
                        if r != bn {
                            assert(self@[r] == old(self)@[r]);
                        }
                    }
                }
            }
            solved
        }
    }

    /// Runs the ensemble until some board is a solution or the iterations run
    /// out.
    ///
    /// If a board is a solution already, nothing is done and the answer is 0.
    /// Otherwise iterations are numbered from 1 and made as long as their
    /// number is below `move_cap`. Each draws a position. With probability
    /// `swap_odds` it then tries an exchange of the boards at that position
    /// and the next, which is skipped at the last position; else it makes one
    /// Metropolis move on the board at that position. The answer is the number
    /// of the iteration whose move reached energy zero, or `move_cap` itself
    /// if none did. The search stops at the first solution: the answer counts
    /// the iterations made.
    pub fn run(&mut self, move_cap: usize, rng: &mut XorShiftRng) -> (steps: usize)
        requires
            old(self)@.len() > 0,
        ensures
            !any_solved(old(self)@) ==> coursed(
                old(self)@,
                final(self)@,
                moves_made(steps as int, move_cap as int),
                old(self).swap_odds(),
            ),
            final(self)@.len() == old(self)@.len(),
            ladder(final(self)@) == ladder(old(self)@),
            final(self).swap_odds() == old(self).swap_odds(),
            forall|n: int| all_placed(old(self)@, n) ==> all_placed(final(self)@, n),
            any_solved(old(self)@) ==> steps == 0 && final(self)@ == old(self)@,
            !any_solved(old(self)@) ==> {
                ||| 1 <= steps < move_cap && any_solved(final(self)@)
                ||| steps == move_cap && !any_solved(final(self)@)
            },
            steps <= move_cap,
            !any_solved(final(self)@) ==> steps == move_cap,
    {
        if self.solved_rung().is_some() {
            return 0;
        }
        let nt = self.rungs.len();
        let ghost mut trace: Seq<Seq<Rung>> = seq![self@];
        let mut j: usize = 1;
        while j < move_cap
            invariant
                1 <= j,
                j <= move_cap || (move_cap == 0 && j == 1),
                course(trace, self.swap_odds()),
                trace.len() == j,
                trace[0] == old(self)@,
                trace.last() == self@,
                nt == self@.len(),
                nt == old(self)@.len(),
                nt > 0,
                ladder(self@) == ladder(old(self)@),
                self.swap_odds() == old(self).swap_odds(),
                forall|n: int| all_placed(old(self)@, n) ==> all_placed(self@, n),
                !any_solved(self@),
                !any_solved(old(self)@),
            decreases move_cap - j,
        {
            let bn = index_below(rng, nt);
            let choice = draw(rng);
            let ghost before = self@;
            let solved = self.iterate(bn, choice, rng);
            proof {
                lemma_course_on(trace, before, self@, self.swap_odds(), bn as int, choice);
                trace = trace.push(self@);
            }
            if solved {
                return j;
            }
            j += 1;
        }
        move_cap
    }
}

/// Runs the ensemble engine on random boards of `board_size` queens, one for
/// each temperature of `ladder`, and tells how many iterations it took: 0 if
/// a board was a solution as drawn, the number of the iteration that solved
/// one, or `move_cap` if none did. An answer below `move_cap` is never given
/// without a solution in hand.
pub fn run_parallel_tempering(
    board_size: usize,
    ladder: Vec<Temperature>,
    swap_odds: u64,
    move_cap: usize,
    rng: &mut XorShiftRng,
) -> (steps: usize)
    requires
        ladder@.len() > 0,
    ensures
        steps <= move_cap,
        board_size <= 1 ==> steps == 0,
        steps < move_cap ==> solvable(board_size as int),
{
    let mut ensemble = Ensemble::random(board_size, ladder, swap_odds, rng);
    proof {
        if board_size <= 1 && !is_solution(ensemble@[0].board@) {
            lemma_conflict_needs_two(ensemble@[0].board@);
        }
    }
    let steps = ensemble.run(move_cap, rng);
    proof {
        if steps < move_cap {
            let r = choose|r: int|
                0 <= r < ensemble@.len() && is_solution(#[trigger] ensemble@[r].board@);
            assert(placed(ensemble@[r].board@, board_size as int));
        }
    }
    steps
}

} // verus!
