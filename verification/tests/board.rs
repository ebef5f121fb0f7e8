use nqueens::board::Board;
use nqueens::queen::Queen;

fn placement(squares: &[(usize, usize)]) -> Vec<Queen> {
    squares.iter().map(|&(x, y)| Queen { x, y }).collect()
}

fn attack(a: Queen, b: Queen) -> bool {
    let (ax, ay, bx, by) = (a.x as i64, a.y as i64, b.x as i64, b.y as i64);
    ax == bx || ay == by || ax + ay == bx + by || ax - ay == bx - by
}

fn brute_energy(queens: &[Queen]) -> i128 {
    let mut e = 0;
    for i in 0..queens.len() {
        for j in (i + 1)..queens.len() {
            if attack(queens[i], queens[j]) {
                e += 1;
            }
        }
    }
    e
}

/// A small generator of its own, so that the boards below are fixed.
fn scatter(n: usize, seed: u64) -> Vec<Queen> {
    let mut state = seed;
    let mut next = move || {
        state = state.wrapping_mul(6364136223846793005).wrapping_add(1442695040888963407);
        ((state >> 33) as usize) % n
    };
    (0..n).map(|_| Queen { x: next(), y: next() }).collect()
}

#[test]
fn known_solution_has_zero_energy() {
    let board = Board::new(placement(&[(0, 1), (1, 3), (2, 0), (3, 2)]));
    assert_eq!(board.energy(), 0);
    assert!(board.is_solved());
    assert_eq!(board.calc_e(), 0);
}

#[test]
fn clash_sees_columns_rows_and_both_diagonals() {
    let q = Queen { x: 3, y: 4 };
    assert!(q.clash(&Queen { x: 3, y: 0 }));
    assert!(q.clash(&Queen { x: 7, y: 4 }));
    assert!(q.clash(&Queen { x: 5, y: 2 }));
    assert!(q.clash(&Queen { x: 1, y: 6 }));
    assert!(q.clash(&Queen { x: 5, y: 6 }));
    assert!(q.clash(&Queen { x: 0, y: 1 }));
    assert!(q.clash(&Queen { x: 3, y: 4 }));
    assert!(!q.clash(&Queen { x: 4, y: 6 }));
    assert!(!q.clash(&Queen { x: 0, y: 0 }));
}

#[test]
fn clash_on_a_diagonal_below_the_main_one() {
    // x - y is negative on both squares
    assert!(Queen { x: 0, y: 5 }.clash(&Queen { x: 1, y: 6 }));
    assert!(!Queen { x: 0, y: 5 }.clash(&Queen { x: 1, y: 7 }));
}

#[test]
fn clash_is_symmetric() {
    let queens = scatter(8, 11);
    for a in &queens {
        for b in &queens {
            assert_eq!(a.clash(b), b.clash(a));
            assert_eq!(a.clash(b), attack(*a, *b));
        }
    }
}

#[test]
fn clash_at_the_largest_coordinates() {
    let far = Queen { x: usize::MAX, y: usize::MAX };
    assert!(far.clash(&Queen { x: 0, y: 0 }));
    assert!(far.clash(&Queen { x: usize::MAX, y: 0 }));
    assert!(!far.clash(&Queen { x: 1, y: 0 }));
    assert!(!Queen { x: usize::MAX, y: 0 }.clash(&Queen { x: 0, y: 1 }));
    assert!(Queen { x: usize::MAX, y: 0 }.clash(&Queen { x: 0, y: usize::MAX }));
}

#[test]
fn energy_counts_each_pair_once() {
    // three on one diagonal: three pairs
    assert_eq!(Board::new(placement(&[(0, 0), (1, 1), (2, 2)])).energy(), 3);
    // one column pair, the third queen free of both
    assert_eq!(Board::new(placement(&[(0, 0), (0, 1), (2, 5)])).energy(), 1);
    // a row pair and a diagonal pair
    assert_eq!(Board::new(placement(&[(0, 0), (3, 0), (1, 2)])).energy(), 2);
}

#[test]
fn energy_of_queens_on_one_square_is_the_upper_bound() {
    for n in 0..7usize {
        let board = Board::new(vec![Queen { x: 0, y: 0 }; n]);
        assert_eq!(board.energy(), (n * n.saturating_sub(1) / 2) as i128);
    }
}

#[test]
fn energy_of_empty_and_single_boards_is_zero() {
    assert_eq!(Board::new(Vec::new()).energy(), 0);
    assert!(Board::new(Vec::new()).is_solved());
    assert_eq!(Board::new(placement(&[(5, 9)])).energy(), 0);
}

#[test]
fn energy_stays_within_its_bounds() {
    for seed in 0..50 {
        let n = 2 + (seed as usize % 7);
        let board = Board::new(scatter(n, seed));
        assert!(board.energy() >= 0);
        assert!(board.energy() <= (n * (n - 1) / 2) as i128);
        assert_eq!(board.energy(), brute_energy(board.queens()));
    }
}

#[test]
fn energy_does_not_depend_on_the_order_of_the_queens() {
    let queens = scatter(8, 3);
    let mut reversed = queens.clone();
    reversed.reverse();
    let mut rotated = queens.clone();
    rotated.rotate_left(3);
    let e = Board::new(queens).energy();
    assert_eq!(Board::new(reversed).energy(), e);
    assert_eq!(Board::new(rotated).energy(), e);
}

#[test]
fn delta_equals_the_change_of_the_recounted_energy() {
    let n = 5;
    let board = Board::new(scatter(n, 7));
    let before = board.energy();
    for qn in 0..n {
        for x in 0..n {
            for y in 0..n {
                let mut moved = board.queens().clone();
                moved[qn] = Queen { x, y };
                assert_eq!(board.de_move(qn, x, y), brute_energy(&moved) - before);
            }
        }
    }
}

#[test]
fn delta_of_a_known_move() {
    // queen 0 leaves the column of queen 1 and enters no conflict
    let board = Board::new(placement(&[(0, 0), (0, 1), (2, 5)]));
    assert_eq!(board.de_move(0, 4, 2), -1);
    // queen 2 enters the row of queen 0 and the diagonal of queen 1
    assert_eq!(board.de_move(2, 1, 0), 2);
    // de_move leaves the board alone
    assert_eq!(board.energy(), 1);
    assert_eq!(board.queen(0), Queen { x: 0, y: 0 });
}

#[test]
fn delta_of_staying_is_zero() {
    let board = Board::new(scatter(6, 21));
    for qn in 0..6 {
        let q = board.queen(qn);
        assert_eq!(board.de_move(qn, q.x, q.y), 0);
    }
}

#[test]
fn moves_keep_the_energy_up_to_date() {
    let n = 8;
    let mut board = Board::new(scatter(n, 5));
    let targets = scatter(200, 99);
    for (k, t) in targets.iter().enumerate() {
        let qn = k % n;
        let before = board.energy();
        let de = board.de_move(qn, t.x % n, t.y % n);
        board.move_queen(qn, t.x % n, t.y % n);
        assert_eq!(board.energy(), before + de);
        assert_eq!(board.energy(), board.calc_e());
        assert_eq!(board.energy(), brute_energy(board.queens()));
        assert_eq!(board.queen(qn), Queen { x: t.x % n, y: t.y % n });
    }
}

#[test]
fn move_to_the_same_square_changes_nothing() {
    let queens = scatter(6, 17);
    let mut board = Board::new(queens.clone());
    let e = board.energy();
    board.move_queen(2, queens[2].x, queens[2].y);
    assert_eq!(board.queens(), &queens);
    assert_eq!(board.energy(), e);
}

#[test]
fn move_changes_one_queen_only() {
    let queens = scatter(6, 23);
    let mut board = Board::new(queens.clone());
    board.move_queen(4, 1, 2);
    assert_eq!(board.len(), 6);
    for i in 0..6 {
        if i == 4 {
            assert_eq!(board.queen(i), Queen { x: 1, y: 2 });
        } else {
            assert_eq!(board.queen(i), queens[i]);
        }
    }
}
