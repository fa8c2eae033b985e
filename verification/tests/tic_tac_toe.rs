use rustlab::tic_tac_toe::{Cell, MoveSearch, Player, SolutionAgent, MAX_DEPTH, WORST_FOR_O, WORST_FOR_X};

fn board(rows: &[&str]) -> Vec<Vec<Cell>> {
    rows.iter()
        .map(|r| {
            r.chars()
                .map(|c| match c {
                    'X' => Cell::X,
                    'O' => Cell::O,
                    '#' => Cell::Wall,
                    _ => Cell::Empty,
                })
                .collect()
        })
        .collect()
}

fn swap(cells: &Vec<Vec<Cell>>) -> Vec<Vec<Cell>> {
    cells
        .iter()
        .map(|r| {
            r.iter()
                .map(|c| match c {
                    Cell::X => Cell::O,
                    Cell::O => Cell::X,
                    other => *other,
                })
                .collect()
        })
        .collect()
}

#[test]
fn trio_scores() {
    assert_eq!(SolutionAgent::count_consecutive_cells(&Cell::X, &Cell::X, &Cell::Empty), 50);
    assert_eq!(SolutionAgent::count_consecutive_cells(&Cell::O, &Cell::Empty, &Cell::O), -50);
    assert_eq!(SolutionAgent::count_consecutive_cells(&Cell::Empty, &Cell::X, &Cell::Empty), 5);
    assert_eq!(SolutionAgent::count_consecutive_cells(&Cell::Empty, &Cell::Empty, &Cell::O), -5);
    assert_eq!(SolutionAgent::count_consecutive_cells(&Cell::X, &Cell::X, &Cell::X), 0);
    assert_eq!(SolutionAgent::count_consecutive_cells(&Cell::X, &Cell::O, &Cell::Empty), 0);
    assert_eq!(SolutionAgent::count_consecutive_cells(&Cell::Empty, &Cell::Empty, &Cell::Empty), 0);
    assert_eq!(SolutionAgent::count_consecutive_cells(&Cell::X, &Cell::X, &Cell::Wall), 0);
    assert_eq!(SolutionAgent::count_consecutive_cells(&Cell::Wall, &Cell::X, &Cell::Empty), 0);
}

#[test]
fn empty_board_scores_the_game_score_only() {
    let cells = board(&[".....", ".....", ".....", ".....", "....."]);
    assert_eq!(SolutionAgent::heuristic(0, &cells), 0);
    assert_eq!(SolutionAgent::heuristic(2, &cells), 2000);
    assert_eq!(SolutionAgent::heuristic(-1, &cells), -1000);
}

#[test]
fn centre_piece_scores_centrality_and_twelve_open_trios() {
    let cells = board(&[".....", ".....", "..X..", ".....", "....."]);
    assert_eq!(SolutionAgent::heuristic(0, &cells), 5 + 12 * 5);
    assert_eq!(SolutionAgent::heuristic(1, &cells), 1000 + 65);
}

#[test]
fn corner_piece_scores() {
    // (0, 0): centrality 5 - 4 = 1; open trios starting there: right, down, diagonal.
    let cells = board(&["X....", ".....", ".....", ".....", "....."]);
    assert_eq!(SolutionAgent::heuristic(0, &cells), 1 + 3 * 5);
}

#[test]
fn two_in_a_row_threat() {
    // X at (0,0) and (0,1): centrality 1 + 2.
    // Row 0: trio (0,0..2) XX. = 50, trio (0,1..3) X.. = 5.
    // Down from (0,0): 5, down from (0,1): 5, diagonal from (0,0): 5,
    // diagonal from (0,1): 5, anti-diagonal from (0,2) through (1,1),(2,0): empty = 0.
    let cells = board(&["XX...", ".....", ".....", ".....", "....."]);
    assert_eq!(SolutionAgent::heuristic(0, &cells), 3 + 50 + 5 + 5 + 5 + 5 + 5);
}

#[test]
fn walls_break_trios() {
    let cells = board(&["X#...", "#....", ".....", ".....", "....."]);
    // Only the trios from (0,0) that avoid walls count: the diagonal one.
    assert_eq!(SolutionAgent::heuristic(0, &cells), 1 + 5);
}

#[test]
fn heuristic_is_antisymmetric() {
    let cells = board(&["XO...", ".X.O.", "..X..", "O..#.", "....X"]);
    let v = SolutionAgent::heuristic(3, &cells);
    let w = SolutionAgent::heuristic(-3, &swap(&cells));
    assert_eq!(v, -w);
}

#[test]
fn exhaustive_search_for_x_keeps_first_maximum() {
    let mut s = MoveSearch::exhaustive(Player::X);
    assert!(s.consider((0, 0), 3));
    assert!(s.consider((0, 1), 7));
    assert!(s.consider((1, 1), 7));
    assert!(s.consider((2, 2), -1));
    assert_eq!(s.outcome(), (7, 0, 1));
}

#[test]
fn exhaustive_search_for_o_keeps_first_minimum() {
    let mut s = MoveSearch::exhaustive(Player::O);
    s.consider((0, 2), 4);
    s.consider((1, 0), -2);
    s.consider((2, 1), -2);
    s.consider((2, 2), 0);
    assert_eq!(s.outcome(), (-2, 1, 0));
}

#[test]
fn search_without_moves_returns_the_start() {
    let s = MoveSearch::exhaustive(Player::X);
    assert_eq!(s.outcome(), (WORST_FOR_X, 0, 0));
    let s = MoveSearch::exhaustive(Player::O);
    assert_eq!(s.outcome(), (WORST_FOR_O, 0, 0));
}

#[test]
fn pruned_search_stops_when_window_closes() {
    let mut s = MoveSearch::pruned(Player::X, WORST_FOR_X, 5);
    assert!(s.consider((0, 0), 3));
    assert!(!s.consider((0, 1), 6));
    assert_eq!(s.outcome(), (6, 0, 1));
    let mut t = MoveSearch::pruned(Player::O, 2, WORST_FOR_O);
    assert!(t.consider((1, 1), 4));
    assert!(!t.consider((1, 2), 2));
    assert_eq!(t.outcome(), (2, 1, 2));
}

#[test]
fn exhaustive_search_never_stops() {
    let mut s = MoveSearch::exhaustive(Player::X);
    assert!(s.consider((0, 0), 2147483647));
    assert!(s.consider((0, 1), 0));
    assert_eq!(s.outcome(), (2147483647, 0, 0));
}

#[test]
fn opponent_and_leaf() {
    assert_eq!(SolutionAgent::opponent(Player::X), Player::O);
    assert_eq!(SolutionAgent::opponent(Player::O), Player::X);
    assert!(SolutionAgent::is_leaf(true, 0, MAX_DEPTH));
    assert!(SolutionAgent::is_leaf(false, MAX_DEPTH, MAX_DEPTH));
    assert!(!SolutionAgent::is_leaf(false, 2, MAX_DEPTH));
}

#[test]
fn window_narrows_to_the_best_score() {
    let mut s = MoveSearch::pruned(Player::X, -10, 10);
    assert_eq!(s.window(), (-10, 10));
    s.consider((0, 0), -20);
    assert_eq!(s.window(), (-10, 10));
    s.consider((0, 1), 4);
    assert_eq!(s.window(), (4, 10));
    let mut t = MoveSearch::pruned(Player::O, -10, 10);
    t.consider((0, 0), 3);
    assert_eq!(t.window(), (-10, 3));
}

#[test]
fn checked_heuristic_reports_overflow() {
    let cells = board(&[".....", ".....", "..X..", ".....", "....."]);
    assert_eq!(SolutionAgent::checked_heuristic(2147483, &cells), Some(2147483000 + 65));
    assert_eq!(SolutionAgent::checked_heuristic(2147484, &cells), None);
    assert_eq!(SolutionAgent::checked_heuristic(-2147483, &swap(&cells)), Some(-2147483000 - 65));
    let full = board(&["XXXXX", "XXXXX", "XXXXX", "XXXXX", "XXXXX"]);
    assert_eq!(SolutionAgent::checked_heuristic(2147483, &full), Some(2147483000 + 65));
    assert_eq!(SolutionAgent::checked_heuristic(0, &Vec::new()), Some(0));
}
