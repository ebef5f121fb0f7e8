//! The single-chain annealer: one board at one fixed temperature.

use vstd::prelude::*;
use rand::XorShiftRng;
use crate::acceptance::{admits, Boltzmann};
use crate::board::Board;
use crate::energy::{is_solution, lemma_conflict_needs_two, move_delta, placed, solvable};
use crate::queen::Queen;
use crate::sampler::{draw, index_below};

verus! {

/// A board of `n` queens, each on a square that the generator chose from the
/// `n` by `n` squares.
pub fn random_board(n: usize, rng: &mut XorShiftRng) -> (board: Board)
    ensures
        placed(board@, n as int),
{
    let mut board = Board::new(vec![Queen { x: 0, y: 0 }; n]);
    let mut j: usize = 0;
    while j < n
        invariant
            j <= n,
            board@.len() == n,
            forall|i: int| 0 <= i < j ==> (#[trigger] board@[i]).x < n && board@[i].y < n,
        decreases n - j,
    {
        let x = index_below(rng, n);
        let y = index_below(rng, n);
        board.move_queen(j, x, y);
        j += 1;
    }
    board
}

/// What the proposal of the move of queen `qn` to `q`, decided by the random
/// bits `draw`, makes of the placement `before`: the queen is moved exactly
/// when the Metropolis rule admits the move's change of energy under the
/// factors `f`, and else the placement stays.
pub open spec fn proposal(
    before: Seq<Queen>,
    after: Seq<Queen>,
    moved: bool,
    f: Seq<u64>,
    qn: int,
    q: Queen,
    draw: u32,
) -> bool {
    &&& moved == admits(f, move_delta(before, qn, q), draw)
    &&& after == if moved {
        before.update(qn, q)
    } else {
        before
    }
}

/// One Metropolis move leads from `before` to `after`: the proposal of the
/// move of some queen of the board to some square of the board, decided by
/// some random bits.
pub open spec fn metropolis_step(
    before: Seq<Queen>,
    after: Seq<Queen>,
    moved: bool,
    f: Seq<u64>,
) -> bool {
    exists|qn: int, q: Queen, draw: u32|
        0 <= qn < before.len() && q.x < before.len() && q.y < before.len() && #[trigger] proposal(
            before,
            after,
            moved,
            f,
            qn,
            q,
            draw,
        )
}

/// One Metropolis move: a queen of the board, a square of the board and 32
/// random bits are drawn, and the move of the queen to the square is proposed
/// to the board. Tells whether the queen was moved.
pub fn metropolis_move(board: &mut Board, factors: &Boltzmann, rng: &mut XorShiftRng) -> (moved:
    bool)
    requires
        old(board)@.len() > 0,
    ensures
        metropolis_step(old(board)@, final(board)@, moved, factors@),
        final(board)@.len() == old(board)@.len(),
        !moved ==> final(board)@ == old(board)@,
        forall|n: int| placed(old(board)@, n) ==> placed(final(board)@, n),
{
    let n = board.len();
    let qn = index_below(rng, n);
    let x = index_below(rng, n);
    let y = index_below(rng, n);
    let bits = draw(rng);
    let moved = board.propose(factors, qn, x, y, bits);
    assert(proposal(old(board)@, board@, moved, factors@, qn as int, Queen { x, y }, bits));
    moved
}

/// A walk whose last placement is no solution goes on by one more Metropolis
/// move.
proof fn lemma_walk_on(
    boards: Seq<Seq<Queen>>,
    before: Seq<Queen>,
    after: Seq<Queen>,
    moved: bool,
    f: Seq<u64>,
)
    requires
        walk(boards, f),
        boards.len() > 0,
        boards.last() == before,
        !is_solution(before),
        metropolis_step(before, after, moved, f),
    ensures
        walk(boards.push(after), f),
{
    let longer = boards.push(after);
    assert forall|i: int| 0 <= i < longer.len() - 1 implies !is_solution(#[trigger] longer[i])
        && exists|moved: bool| #[trigger] metropolis_step(longer[i], longer[i + 1], moved, f) by {
        if i < boards.len() - 1 {
            assert(longer[i] == boards[i]);
            assert(longer[i + 1] == boards[i + 1]);
        } else {
            assert(longer[i] == before);
            assert(longer[i + 1] == after);
        }
    }
}

/// The placements `boards` follow one another by Metropolis moves under the
/// factors `f`, and none but the last may be a solution.
pub open spec fn walk(boards: Seq<Seq<Queen>>, f: Seq<u64>) -> bool {
    forall|i: int|
        0 <= i < boards.len() - 1 ==> !is_solution(#[trigger] boards[i]) && exists|moved: bool| #[trigger]
            metropolis_step(boards[i], boards[i + 1], moved, f)
}

/// Exactly `moves` Metropolis moves under the factors `f` lead from `before`
/// to `after`, and no placement on the way, `before` included, is a solution.
pub open spec fn walked(before: Seq<Queen>, after: Seq<Queen>, moves: int, f: Seq<u64>) -> bool {
    exists|boards: Seq<Seq<Queen>>|
        #[trigger] walk(boards, f) && boards.len() == moves + 1 && boards[0] == before
            && boards.last() == after
}

/// How many moves a search that answers `steps` under the cap `cap` has made
/// on a start that was no solution: `steps` if the move of that number
/// solved it, and else all the moves that the cap allows, whose numbers lie
/// below it.
pub open spec fn moves_made(steps: int, cap: int) -> int {
    if steps < cap {
        steps
    } else if cap == 0 {
        0
    } else {
        cap - 1
    }
}

/// Anneals `board` at the temperature of `factors` until it is a solution or
/// the moves run out.
///
/// A board that is a solution already is left alone and the answer is 0.
/// Otherwise moves are numbered from 1 and made as long as their number is
/// below `move_cap`; the answer is the number of the move that reached
/// energy zero, or `move_cap` itself if none did. The search stops at the
/// first solution: the answer counts the moves made.
pub fn anneal(board: &mut Board, factors: &Boltzmann, move_cap: usize, rng: &mut XorShiftRng) -> (steps:
    usize)
    ensures
        !is_solution(old(board)@) ==> walked(
            old(board)@,
            final(board)@,
            moves_made(steps as int, move_cap as int),
            factors@,
        ),
        final(board)@.len() == old(board)@.len(),
        forall|n: int| placed(old(board)@, n) ==> placed(final(board)@, n),
        is_solution(old(board)@) ==> steps == 0 && final(board)@ == old(board)@,
        !is_solution(old(board)@) ==> {
            ||| 1 <= steps < move_cap && is_solution(final(board)@)
            ||| steps == move_cap && !is_solution(final(board)@)
        },
        steps <= move_cap,
        !is_solution(final(board)@) ==> steps == move_cap,
{
    if board.is_solved() {
        return 0;
    }
    let ghost mut trace: Seq<Seq<Queen>> = seq![board@];
    let mut j: usize = 1;
    while j < move_cap
        invariant
            1 <= j,
            j <= move_cap || (move_cap == 0 && j == 1),
            board@.len() == old(board)@.len(),
            forall|n: int| placed(old(board)@, n) ==> placed(board@, n),
            !is_solution(board@),
            !is_solution(old(board)@),
            walk(trace, factors@),
            trace.len() == j,
            trace[0] == old(board)@,
            trace.last() == board@,
        decreases move_cap - j,
    {
        proof {
            lemma_conflict_needs_two(board@);
        }
        let ghost before = board@;
        let moved = metropolis_move(board, factors, rng);
        proof {
            lemma_walk_on(trace, before, board@, moved, factors@);
            trace = trace.push(board@);
        }
        if moved {
            if board.is_solved() {
                return j;
            }
        }
        j += 1;
    }
    move_cap
}

/// Runs the single-chain annealer on a random board of `board_size` queens
/// and tells how many moves it took: 0 if the board was a solution as drawn,
/// the number of the move that solved it, or `move_cap` if none did. An
/// answer below `move_cap` is never given without a solution in hand.
pub fn run_single_chain(
    board_size: usize,
    factors: &Boltzmann,
    move_cap: usize,
    rng: &mut XorShiftRng,
) -> (steps: usize)
    ensures
        steps <= move_cap,
        board_size <= 1 ==> steps == 0,
        steps < move_cap ==> solvable(board_size as int),
{
    let mut board = random_board(board_size, rng);
    proof {
        if board_size <= 1 && !is_solution(board@) {
            lemma_conflict_needs_two(board@);
        }
    }
    let steps = anneal(&mut board, factors, move_cap, rng);
    proof {
        if steps < move_cap {
            assert(placed(board@, board_size as int) && is_solution(board@));
        }
    }
    steps
}

} // verus!
