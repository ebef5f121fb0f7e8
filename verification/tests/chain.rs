use nqueens::acceptance::{Boltzmann, CERTAIN};
use nqueens::board::Board;
use nqueens::chain::{anneal, metropolis_move, random_board, run_single_chain};
use nqueens::queen::Queen;
use rand::{SeedableRng, XorShiftRng};

fn rng(seed: u32) -> XorShiftRng {
    XorShiftRng::from_seed([seed, 0x9e3779b9, 0x85ebca6b, 0xc2b2ae35])
}

fn odds(p: f64) -> u64 {
    let scaled = (p * 4294967296.0).ceil();
    if scaled >= 4294967296.0 {
        CERTAIN
    } else if scaled > 0.0 {
        scaled as u64
    } else {
        0
    }
}

fn boltzmann(beta: f64, costs: usize) -> Boltzmann {
    Boltzmann::new((1..=costs).map(|c| odds((-(c as f64) * beta).exp())).collect())
}

fn attack(a: Queen, b: Queen) -> bool {
    let (ax, ay, bx, by) = (a.x as i64, a.y as i64, b.x as i64, b.y as i64);
    ax == bx || ay == by || ax + ay == bx + by || ax - ay == bx - by
}

fn peaceful(queens: &[Queen]) -> bool {
    (0..queens.len()).all(|i| ((i + 1)..queens.len()).all(|j| !attack(queens[i], queens[j])))
}

#[test]
fn boltzmann_factors_of_a_known_temperature() {
    // beta = ln 2: each unit of cost halves the odds
    let table = boltzmann(std::f64::consts::LN_2, 3);
    let halves = [CERTAIN / 2, CERTAIN / 4, CERTAIN / 8];
    for (factor, half) in table.factors().iter().zip(halves) {
        assert!(factor.abs_diff(half) <= 1);
    }
    // a large beta saturates to zero
    assert_eq!(boltzmann(1.0e6, 2).factors(), &vec![0, 0]);
    // beta zero accepts every move
    assert_eq!(boltzmann(0.0, 2).factors(), &vec![CERTAIN, CERTAIN]);
}

#[test]
fn random_board_has_the_size_and_stays_on_the_squares() {
    for n in [0usize, 1, 2, 5, 8, 13] {
        let mut g = rng(n as u32 + 1);
        for _ in 0..20 {
            let board = random_board(n, &mut g);
            assert_eq!(board.len(), n);
            assert!(board.queens().iter().all(|q| q.x < n && q.y < n));
            assert_eq!(board.energy(), board.calc_e());
        }
    }
}

#[test]
fn random_boards_differ() {
    let mut g = rng(5);
    let a = random_board(8, &mut g);
    let b = random_board(8, &mut g);
    assert_ne!(a.queens(), b.queens());
}

#[test]
fn anneal_on_a_solved_board_answers_zero() {
    let solution =
        vec![Queen { x: 0, y: 1 }, Queen { x: 1, y: 3 }, Queen { x: 2, y: 0 }, Queen { x: 3, y: 2 }];
    let mut board = Board::new(solution.clone());
    assert_eq!(board.energy(), 0);
    let steps = anneal(&mut board, &boltzmann(1.0 / 0.165, 4), 1000, &mut rng(1));
    assert_eq!(steps, 0);
    assert_eq!(board.queens(), &solution);
}

#[test]
fn anneal_on_a_solved_board_answers_zero_whatever_the_cap() {
    let mut board = Board::new(vec![Queen { x: 2, y: 2 }]);
    assert_eq!(anneal(&mut board, &boltzmann(1.0, 1), 0, &mut rng(1)), 0);
    let mut empty = Board::new(Vec::new());
    assert_eq!(anneal(&mut empty, &boltzmann(1.0, 1), 7, &mut rng(1)), 0);
}

#[test]
fn anneal_gives_up_with_the_cap_itself() {
    // three queens on three by three squares have no solution
    for cap in [0usize, 1, 2, 50, 3000] {
        let mut board = random_board(3, &mut rng(cap as u32 + 7));
        let steps = anneal(&mut board, &boltzmann(1.0 / 0.165, 3), cap, &mut rng(3));
        assert_eq!(steps, cap);
        assert!(!board.is_solved());
        assert_eq!(board.len(), 3);
        assert_eq!(board.energy(), board.calc_e());
    }
}

#[test]
fn anneal_with_cap_one_makes_no_move() {
    let start = vec![Queen { x: 0, y: 0 }, Queen { x: 0, y: 1 }, Queen { x: 0, y: 2 }, Queen { x: 0, y: 3 }];
    let mut board = Board::new(start.clone());
    assert_eq!(anneal(&mut board, &boltzmann(0.0, 4), 1, &mut rng(9)), 1);
    assert_eq!(board.queens(), &start);
}

#[test]
fn anneal_reports_success_only_with_a_solution() {
    for seed in 1..40 {
        let mut g = rng(seed);
        let mut board = random_board(6, &mut g);
        let cap = 20000;
        let steps = anneal(&mut board, &boltzmann(1.0 / 0.165, 6), cap, &mut g);
        assert!(steps <= cap);
        assert_eq!(board.len(), 6);
        assert!(board.queens().iter().all(|q| q.x < 6 && q.y < 6));
        assert_eq!(board.energy(), board.calc_e());
        assert_eq!(steps < cap, board.is_solved());
        assert_eq!(board.is_solved(), peaceful(board.queens()));
    }
}

#[test]
fn metropolis_move_keeps_the_board_in_step() {
    let mut g = rng(11);
    let mut board = random_board(8, &mut g);
    let table = boltzmann(0.5, 8);
    for _ in 0..2000 {
        let before = board.queens().clone();
        let moved = metropolis_move(&mut board, &table, &mut g);
        let changed = (0..8).filter(|&i| before[i] != board.queen(i)).count();
        assert!(changed <= 1);
        if !moved {
            assert_eq!(changed, 0);
        }
        assert!(board.queens().iter().all(|q| q.x < 8 && q.y < 8));
        assert_eq!(board.energy(), board.calc_e());
    }
}

#[test]
fn metropolis_move_never_climbs_when_the_factors_are_zero() {
    let mut g = rng(13);
    let mut board = random_board(8, &mut g);
    let never = Boltzmann::new(vec![0; 8]);
    for _ in 0..2000 {
        let before = board.energy();
        metropolis_move(&mut board, &never, &mut g);
        assert!(board.energy() <= before);
    }
}

#[test]
fn metropolis_move_takes_every_proposal_when_the_factors_are_certain() {
    let mut g = rng(17);
    let mut board = random_board(8, &mut g);
    let always = Boltzmann::new(vec![CERTAIN; 8]);
    for _ in 0..500 {
        assert!(metropolis_move(&mut board, &always, &mut g));
    }
}

#[test]
fn single_chain_on_boards_without_conflict_answers_zero() {
    assert_eq!(run_single_chain(0, &boltzmann(1.0, 1), 100, &mut rng(1)), 0);
    assert_eq!(run_single_chain(1, &boltzmann(1.0, 1), 100, &mut rng(1)), 0);
    assert_eq!(run_single_chain(1, &boltzmann(1.0, 1), 0, &mut rng(1)), 0);
}

#[test]
fn single_chain_gives_up_with_the_cap_itself() {
    assert_eq!(run_single_chain(2, &boltzmann(1.0 / 0.165, 2), 700, &mut rng(2)), 700);
    assert_eq!(run_single_chain(3, &boltzmann(1.0 / 0.165, 3), 1234, &mut rng(3)), 1234);
    assert_eq!(run_single_chain(3, &boltzmann(1.0 / 0.165, 3), 0, &mut rng(3)), 0);
}

#[test]
fn single_chain_solves_eight_queens_within_the_cap() {
    let cap = 1_000_000;
    let table = boltzmann(1.0 / 0.165, 8);
    let runs = 20;
    let mut total = 0usize;
    for seed in 1..=runs {
        let steps = run_single_chain(8, &table, cap, &mut rng(seed));
        assert!(steps < cap, "seed {} gave up", seed);
        total += steps;
    }
    assert!(total / (runs as usize) < cap / 4);
}

#[test]
fn single_chain_is_repeatable_for_one_seed() {
    let table = boltzmann(1.0 / 0.165, 6);
    let a = run_single_chain(6, &table, 100000, &mut rng(21));
    let b = run_single_chain(6, &table, 100000, &mut rng(21));
    assert_eq!(a, b);
}

#[test]
fn anneal_with_cap_two_makes_one_move() {
    let start = vec![Queen { x: 0, y: 0 }, Queen { x: 0, y: 1 }, Queen { x: 0, y: 2 }];
    let mut board = Board::new(start.clone());
    let always = Boltzmann::new(vec![CERTAIN; 3]);
    assert_eq!(anneal(&mut board, &always, 2, &mut rng(31)), 2);
    assert!((0..3).filter(|&i| board.queen(i) != start[i]).count() <= 1);
}

#[test]
fn anneal_answers_the_number_of_the_solving_move() {
    // the same seed, with caps around the answer: the search stops at the
    // same move or gives up before it
    let table = boltzmann(1.0 / 0.165, 5);
    let start = random_board(5, &mut rng(40)).queens().clone();
    let full = anneal(&mut Board::new(start.clone()), &table, 200000, &mut rng(41));
    assert!(full >= 1 && full < 200000);
    let mut again = Board::new(start.clone());
    assert_eq!(anneal(&mut again, &table, full + 1, &mut rng(41)), full);
    assert!(again.is_solved());
    let mut short = Board::new(start.clone());
    assert_eq!(anneal(&mut short, &table, full, &mut rng(41)), full);
    assert!(!short.is_solved());
}
