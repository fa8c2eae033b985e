use vstd::prelude::*;

verus! {

/// A cell of a tic-tac-toe board.
#[derive(Clone, Copy, PartialEq, Eq, Structural, Debug)]
pub enum Cell {
    X,
    O,
    Empty,
    Wall,
}

/// A player.
#[derive(Clone, Copy, PartialEq, Eq, Structural, Debug)]
pub enum Player {
    X,
    O,
}

/// The tic-tac-toe agent: a board evaluation and the decisions of a
/// minimax search with alpha-beta pruning.
pub struct SolutionAgent {}

/// The value of a trio of consecutive cells: an open two-in-a-row is worth
/// 50 to its owner, an open one-in-a-row 5; X counts positive, O negative.
pub open spec fn trio_value(c1: Cell, c2: Cell, c3: Cell) -> int {
    let xs = count_of(c1, Cell::X) + count_of(c2, Cell::X) + count_of(c3, Cell::X);
    let os = count_of(c1, Cell::O) + count_of(c2, Cell::O) + count_of(c3, Cell::O);
    let free = count_of(c1, Cell::Empty) + count_of(c2, Cell::Empty) + count_of(c3, Cell::Empty);
    if xs == 2 && free == 1 {
        50
    } else if os == 2 && free == 1 {
        -50
    } else if xs == 1 && free == 2 {
        5
    } else if os == 1 && free == 2 {
        -5
    } else {
        0
    }
}

/// One if `c` is `k`, zero otherwise.
pub open spec fn count_of(c: Cell, k: Cell) -> int {
    if c == k {
        1
    } else {
        0
    }
}

/// How many of the first `i` cells of `s` are `k`.
pub open spec fn count_prefix(s: Seq<Cell>, k: Cell, i: int) -> int
    decreases i,
{
    if i <= 0 {
        0
    } else {
        count_prefix(s, k, i - 1) + count_of(s[i - 1], k)
    }
}

/// The distance of a position from the centre `(2, 2)` of the board, in
/// rows plus columns.
pub open spec fn distance_from_centre(row: int, col: int) -> int {
    (if row >= 2 { row - 2 } else { 2 - row }) + (if col >= 2 { col - 2 } else { 2 - col })
}

/// What a cell adds for its place: `5 - distance` for X, the opposite for O.
pub open spec fn centrality_value(cell: Cell, row: int, col: int) -> int {
    let centrality = 5 - distance_from_centre(row, col);
    match cell {
        Cell::X => centrality,
        Cell::O => -centrality,
        _ => 0,
    }
}

/// The centrality values of the first `c` cells of row `r`.
pub open spec fn centrality_row(cells: Seq<Seq<Cell>>, r: int, c: int) -> int
    decreases c,
{
    if c <= 0 {
        0
    } else {
        centrality_row(cells, r, c - 1) + centrality_value(cells[r][c - 1], r, c - 1)
    }
}

/// The centrality values of the first `r` rows, each of `n` cells.
pub open spec fn centrality_rows(cells: Seq<Seq<Cell>>, n: int, r: int) -> int
    decreases r,
{
    if r <= 0 {
        0
    } else {
        centrality_rows(cells, n, r - 1) + centrality_row(cells, r - 1, n)
    }
}

/// The `k`-th trio that starts at `(r, c)` on an `n` by `n` board, if it fits:
/// 0 rightward, 1 downward, 2 down-right, 3 down-left; zero if it does not fit.
pub open spec fn trio_at(cells: Seq<Seq<Cell>>, n: int, r: int, c: int, k: int) -> int {
    if k == 0 {
        if c + 2 < n {
            trio_value(cells[r][c], cells[r][c + 1], cells[r][c + 2])
        } else {
            0
        }
    } else if k == 1 {
        if r + 2 < n {
            trio_value(cells[r][c], cells[r + 1][c], cells[r + 2][c])
        } else {
            0
        }
    } else if k == 2 {
        if r + 2 < n && c + 2 < n {
            trio_value(cells[r][c], cells[r + 1][c + 1], cells[r + 2][c + 2])
        } else {
            0
        }
    } else {
        if r + 2 < n && c >= 2 {
            trio_value(cells[r][c], cells[r + 1][c - 1], cells[r + 2][c - 2])
        } else {
            0
        }
    }
}

/// The first `m` of the four trio values at `(r, c)`.
pub open spec fn trios_at(cells: Seq<Seq<Cell>>, n: int, r: int, c: int, m: int) -> int
    decreases m,
{
    if m <= 0 {
        0
    } else {
        trios_at(cells, n, r, c, m - 1) + trio_at(cells, n, r, c, m - 1)
    }
}

/// The trio values of the first `c` cells of row `r`.
pub open spec fn trio_row(cells: Seq<Seq<Cell>>, n: int, r: int, c: int) -> int
    decreases c,
{
    if c <= 0 {
        0
    } else {
        trio_row(cells, n, r, c - 1) + trios_at(cells, n, r, c - 1, 4)
    }
}

/// The trio values of the first `r` rows.
pub open spec fn trio_rows(cells: Seq<Seq<Cell>>, n: int, r: int) -> int
    decreases r,
{
    if r <= 0 {
        0
    } else {
        trio_rows(cells, n, r - 1) + trio_row(cells, n, r - 1, n)
    }
}

/// The evaluation of a board with the given game score: the score times
/// 1000, plus the centrality of every piece, plus the value of every trio.
pub open spec fn heuristic_value(score: i32, cells: Seq<Seq<Cell>>) -> int {
    let n = cells.len() as int;
    score * 1000 + centrality_rows(cells, n, n) + trio_rows(cells, n, n)
}

/// The board as rows of cells.
pub open spec fn grid(cells: Vec<Vec<Cell>>) -> Seq<Seq<Cell>> {
    cells@.map_values(|row: Vec<Cell>| row@)
}

/// `v` fits in an `i32`.
pub open spec fn fits_i32(v: int) -> bool {
    i32::MIN <= v <= i32::MAX
}

/// Every running total of the evaluation, in the order the terms are
/// added (the centralities row by row, then the trios cell by cell), fits
/// in an `i32`.
pub open spec fn heuristic_fits(score: i32, cells: Seq<Seq<Cell>>) -> bool {
    let n = cells.len() as int;
    let base = score * 1000;
    &&& fits_i32(base)
    &&& forall|r: int, c: int|
        0 <= r < n && 0 <= c <= n ==> fits_i32(
            base + centrality_rows(cells, n, r) + #[trigger] centrality_row(cells, r, c),
        )
    &&& forall|r: int, c: int, m: int|
        0 <= r < n && 0 <= c < n && 0 <= m <= 4 ==> fits_i32(
            base + centrality_rows(cells, n, n) + trio_rows(cells, n, r) + trio_row(cells, n, r, c)
                + #[trigger] trios_at(cells, n, r, c, m),
        )
}

impl SolutionAgent {
    /// The value of a trio of consecutive cells (see `trio_value`); walls count for nothing.
    pub fn count_consecutive_cells(c1: &Cell, c2: &Cell, c3: &Cell) -> (v: i32)
        ensures
            v == trio_value(*c1, *c2, *c3),
    {
        let mut x_count: i32 = 0;
        let mut o_count: i32 = 0;
        let mut free_count: i32 = 0;
        let cells = [*c1, *c2, *c3];
        for i in 0..3
            invariant
                cells@ == seq![*c1, *c2, *c3],
                x_count == count_prefix(cells@, Cell::X, i as int),
                o_count == count_prefix(cells@, Cell::O, i as int),
                free_count == count_prefix(cells@, Cell::Empty, i as int),
                0 <= x_count <= i,
                0 <= o_count <= i,
                0 <= free_count <= i,
        {
            match cells[i] {
                Cell::X => x_count += 1,
                Cell::O => o_count += 1,
                Cell::Empty => free_count += 1,
                _ => {},
            }
        }
        reveal_with_fuel(count_prefix, 4);
        assert(count_prefix(cells@, Cell::X, 3) == count_of(*c1, Cell::X) + count_of(*c2, Cell::X)
            + count_of(*c3, Cell::X));
        assert(count_prefix(cells@, Cell::O, 3) == count_of(*c1, Cell::O) + count_of(*c2, Cell::O)
            + count_of(*c3, Cell::O));
        assert(count_prefix(cells@, Cell::Empty, 3) == count_of(*c1, Cell::Empty) + count_of(
            *c2,
            Cell::Empty,
        ) + count_of(*c3, Cell::Empty));
        if x_count == 2 && free_count == 1 {
            50
        } else if o_count == 2 && free_count == 1 {
            -50
        } else if x_count == 1 && free_count == 2 {
            5
        } else if o_count == 1 && free_count == 2 {
            -5
        } else {
            0
        }
    }

    /// The trio value number `k` (see `trio_at`) of the cell at `(row, col)`.
    fn trio_term(cells: &Vec<Vec<Cell>>, row: usize, col: usize, k: usize) -> (t: i32)
        requires
            row < cells@.len(),
            col < cells@.len(),
            cells@.len() < 0x100_0000,
            k < 4,
            forall|r: int| 0 <= r < cells@.len() ==> (#[trigger] cells@[r])@.len() >= cells@.len(),
        ensures
            t == trio_at(grid(*cells), cells@.len() as int, row as int, col as int, k as int),
            -50 <= t <= 50,
    {
        let len = cells.len();
        let ghost g = grid(*cells);
        assert(g[row as int] == cells@[row as int]@);
        if row + 2 < len {
            assert(g[row + 1] == cells@[row + 1]@);
            assert(g[row + 2] == cells@[row + 2]@);
        }
        if k == 0 {
            if col + 2 < len {
                Self::count_consecutive_cells(&cells[row][col], &cells[row][col + 1], &cells[row][col + 2])
            } else {
                0
            }
        } else if k == 1 {
            if row + 2 < len {
                Self::count_consecutive_cells(&cells[row][col], &cells[row + 1][col], &cells[row + 2][col])
            } else {
                0
            }
        } else if k == 2 {
            if row + 2 < len && col + 2 < len {
                Self::count_consecutive_cells(
                    &cells[row][col],
                    &cells[row + 1][col + 1],
                    &cells[row + 2][col + 2],
                )
            } else {
                0
            }
        } else {
            if row + 2 < len && col >= 2 {
                Self::count_consecutive_cells(
                    &cells[row][col],
                    &cells[row + 1][col - 1],
                    &cells[row + 2][col - 2],
                )
            } else {
                0
            }
        }
    }

    /// Adds to `score`, one after the other, the four trio values of the
    /// cell at `(row, col)`; `None` when a running total leaves the `i32` range.
    fn add_trios_checked(score: i32, cells: &Vec<Vec<Cell>>, row: usize, col: usize) -> (s: Option<
        i32,
    >)
        requires
            row < cells@.len(),
            col < cells@.len(),
            cells@.len() < 0x100_0000,
            forall|r: int| 0 <= r < cells@.len() ==> (#[trigger] cells@[r])@.len() >= cells@.len(),
        ensures
            s is Some <==> forall|m: int|
                1 <= m <= 4 ==> fits_i32(
                    score + #[trigger] trios_at(
                        grid(*cells),
                        cells@.len() as int,
                        row as int,
                        col as int,
                        m,
                    ),
                ),
            s matches Some(v) ==> v == score + trios_at(
                grid(*cells),
                cells@.len() as int,
                row as int,
                col as int,
                4,
            ),
    {
        let ghost g = grid(*cells);
        let ghost n = cells@.len() as int;
        let mut s = score;
        for k in 0..4
            invariant
                row < cells@.len(),
                col < cells@.len(),
                cells@.len() < 0x100_0000,
                g == grid(*cells),
                n == cells@.len(),
                forall|r: int| 0 <= r < cells@.len() ==> (#[trigger] cells@[r])@.len() >= cells@.len(),
                forall|m: int|
                    1 <= m <= k ==> fits_i32(score + #[trigger] trios_at(g, n, row as int, col as int, m)),
                s == score + trios_at(g, n, row as int, col as int, k as int),
        {
            let t = Self::trio_term(cells, row, col, k);
            match s.checked_add(t) {
                Some(v) => {
                    s = v;
                },
                None => {
                    assert(!fits_i32(score + trios_at(g, n, row as int, col as int, k + 1)));
                    return None;
                },
            }
        }
        Some(s)
    }

    /// The evaluation of a board (see `heuristic_value`), or `None` when a
    /// running total of it leaves the `i32` range, given the game's score and
    /// the board's cells, as rows at least as long as the board is high.
    pub fn checked_heuristic(score: i32, cells: &Vec<Vec<Cell>>) -> (v: Option<i32>)
        requires
            cells@.len() < 0x100_0000,
            forall|r: int| 0 <= r < cells@.len() ==> (#[trigger] cells@[r])@.len() >= cells@.len(),
        ensures
            v is Some <==> heuristic_fits(score, grid(*cells)),
            v matches Some(x) ==> x == heuristic_value(score, grid(*cells)),
    {
        let ghost g = grid(*cells);
        let len = cells.len();
        let ghost n = len as int;
        let ghost base = score * 1000;
        let mut total: i32 = match score.checked_mul(1000) {
            Some(t) => t,
            None => {
                return None;
            },
        };

        // centrality
        let mut row: usize = 0;
        while row < len
            invariant
                len == cells@.len(),
                n == len,
                len < 0x100_0000,
                g == grid(*cells),
                forall|r: int| 0 <= r < len ==> (#[trigger] cells@[r])@.len() >= len,
                fits_i32(base),
                base == score * 1000,
                forall|r: int, c: int|
                    0 <= r < row && 0 <= c <= n ==> fits_i32(
                        base + centrality_rows(g, n, r) + #[trigger] centrality_row(g, r, c),
                    ),
                row <= len,
                total == base + centrality_rows(g, n, row as int),
            decreases len - row,
        {
            let mut col: usize = 0;
            while col < len
                invariant
                    len == cells@.len(),
                    n == len,
                    len < 0x100_0000,
                    g == grid(*cells),
                    forall|r: int| 0 <= r < len ==> (#[trigger] cells@[r])@.len() >= len,
                    fits_i32(base),
                    base == score * 1000,
                base == score * 1000,
                    forall|r: int, c: int|
                        0 <= r < row && 0 <= c <= n ==> fits_i32(
                            base + centrality_rows(g, n, r) + #[trigger] centrality_row(g, r, c),
                        ),
                    forall|c: int|
                        0 <= c <= col ==> fits_i32(
                            base + centrality_rows(g, n, row as int) + #[trigger] centrality_row(
                                g,
                                row as int,
                                c,
                            ),
                        ),
                    row < len,
                    col <= len,
                    total == base + centrality_rows(g, n, row as int) + centrality_row(
                        g,
                        row as int,
                        col as int,
                    ),
                decreases len - col,
            {
                let cell = cells[row][col];
                assert(g[row as int][col as int] == cell);
                let center: i32 = 2;
                let rowi32: i32 = row as i32;
                let coli32: i32 = col as i32;
                let rd = rowi32 - center;
                let cd = coli32 - center;
                let rowdifference = if rd < 0 { -rd } else { rd };
                let columndifference = if cd < 0 { -cd } else { cd };
                let dist = rowdifference + columndifference;
                let centrality = 5 - dist;
                let added = match cell {
                    Cell::X => total.checked_add(centrality),
                    Cell::O => total.checked_sub(centrality),
                    _ => Some(total),
                };
                match added {
                    Some(t) => {
                        total = t;
                    },
                    None => {
                        assert(!fits_i32(
                            base + centrality_rows(g, n, row as int) + centrality_row(
                                g,
                                row as int,
                                col + 1,
                            ),
                        ));
                        assert(!heuristic_fits(score, g)) by {
                            if heuristic_fits(score, g) {
                                assert(fits_i32(
                                    base + centrality_rows(g, n, row as int) + centrality_row(
                                        g,
                                        row as int,
                                        col + 1,
                                    ),
                                ));
                            }
                        }
                        return None;
                    },
                }
                col = col + 1;
            }
            assert(centrality_rows(g, n, row + 1) == centrality_rows(g, n, row as int)
                + centrality_row(g, row as int, n));
            row = row + 1;
        }

        // consecutive X/O counting
        let ghost central = centrality_rows(g, n, n);
        let mut row: usize = 0;
        while row < len
            invariant
                len == cells@.len(),
                n == len,
                len < 0x100_0000,
                g == grid(*cells),
                forall|r: int| 0 <= r < len ==> (#[trigger] cells@[r])@.len() >= len,
                central == centrality_rows(g, n, n),
                fits_i32(base),
                base == score * 1000,
                forall|r: int, c: int|
                    0 <= r < n && 0 <= c <= n ==> fits_i32(
                        base + centrality_rows(g, n, r) + #[trigger] centrality_row(g, r, c),
                    ),
                forall|r: int, c: int, m: int|
                    0 <= r < row && 0 <= c < n && 0 <= m <= 4 ==> fits_i32(
                        base + central + trio_rows(g, n, r) + trio_row(g, n, r, c)
                            + #[trigger] trios_at(g, n, r, c, m),
                    ),
                row <= len,
                total == base + central + trio_rows(g, n, row as int),
            decreases len - row,
        {
            let mut col: usize = 0;
            while col < len
                invariant
                    len == cells@.len(),
                    n == len,
                    len < 0x100_0000,
                    g == grid(*cells),
                    forall|r: int| 0 <= r < len ==> (#[trigger] cells@[r])@.len() >= len,
                    central == centrality_rows(g, n, n),
                    fits_i32(base),
                    base == score * 1000,
                base == score * 1000,
                    forall|r: int, c: int|
                        0 <= r < n && 0 <= c <= n ==> fits_i32(
                            base + centrality_rows(g, n, r) + #[trigger] centrality_row(g, r, c),
                        ),
                    forall|r: int, c: int, m: int|
                        0 <= r < row && 0 <= c < n && 0 <= m <= 4 ==> fits_i32(
                            base + central + trio_rows(g, n, r) + trio_row(g, n, r, c)
                                + #[trigger] trios_at(g, n, r, c, m),
                        ),
                    forall|c: int, m: int|
                        0 <= c < col && 0 <= m <= 4 ==> fits_i32(
                            base + central + trio_rows(g, n, row as int) + trio_row(
                                g,
                                n,
                                row as int,
                                c,
                            ) + #[trigger] trios_at(g, n, row as int, c, m),
                        ),
                    row < len,
                    col <= len,
                    fits_i32(total as int),
                    total == base + central + trio_rows(g, n, row as int) + trio_row(
                        g,
                        n,
                        row as int,
                        col as int,
                    ),
                decreases len - col,
            {
                let ghost r = row as int;
                let ghost c = col as int;
                match Self::add_trios_checked(total, cells, row, col) {
                    Some(t) => {
                        assert(trios_at(g, n, r, c, 0) == 0);
                        total = t;
                    },
                    None => {
                        assert(!heuristic_fits(score, g)) by {
                            if heuristic_fits(score, g) {
                                assert forall|m: int| 1 <= m <= 4 implies fits_i32(
                                    total + #[trigger] trios_at(g, n, r, c, m),
                                ) by {
                                    assert(fits_i32(
                                        base + central + trio_rows(g, n, r) + trio_row(g, n, r, c)
                                            + trios_at(g, n, r, c, m),
                                    ));
                                }
                            }
                        }
                        return None;
                    },
                }
                col = col + 1;
            }
            assert(trio_rows(g, n, row + 1) == trio_rows(g, n, row as int) + trio_row(
                g,
                n,
                row as int,
                n,
            ));
            row = row + 1;
        }
        Some(total)
    }

    /// The evaluation of a board from X's side (see `heuristic_value`), given
    /// the game's score and the board's cells, as rows at least as long as
    /// the board is high; no running total of it may leave the `i32` range.
    pub fn heuristic(score: i32, cells: &Vec<Vec<Cell>>) -> (v: i32)
        requires
            cells@.len() < 0x100_0000,
            forall|r: int| 0 <= r < cells@.len() ==> (#[trigger] cells@[r])@.len() >= cells@.len(),
            heuristic_fits(score, grid(*cells)),
        ensures
            v == heuristic_value(score, grid(*cells)),
    {
        match Self::checked_heuristic(score, cells) {
            Some(v) => v,
            None => 0,
        }
    }
}

/// The player who moves after `player`.
pub open spec fn other(player: Player) -> Player {
    match player {
        Player::X => Player::O,
        Player::O => Player::X,
    }
}

/// The depth at which the search of the larger board stops and evaluates.
pub const MAX_DEPTH: u32 = 5;

/// The score a search starts from: the worst one for the player to move.
pub const WORST_FOR_X: i32 = -2147483647;

/// The score a search for O starts from.
pub const WORST_FOR_O: i32 = 2147483647;

/// The model of a [`MoveSearch`]: the best score and move found so far, the
/// alpha-beta window, and whether the window may cut the search short.
pub struct SearchView {
    pub maximizing: bool,
    pub best_score: i32,
    pub best_move: Option<(usize, usize)>,
    pub alpha: i32,
    pub beta: i32,
    pub pruning: bool,
}

/// The larger of two scores.
pub open spec fn max_score(a: i32, b: i32) -> i32 {
    if a >= b {
        a
    } else {
        b
    }
}

/// The smaller of two scores.
pub open spec fn min_score(a: i32, b: i32) -> i32 {
    if a <= b {
        a
    } else {
        b
    }
}

/// `score` is strictly better than the best so far for the player to move.
pub open spec fn improves(s: SearchView, score: i32) -> bool {
    if s.maximizing {
        score > s.best_score
    } else {
        score < s.best_score
    }
}

/// The search after the move `mv` was found to lead to `score`: a strictly
/// better score becomes the best, with its move; then alpha (for X) or beta
/// (for O) moves to the best score when that narrows the window.
pub open spec fn step(s: SearchView, mv: (usize, usize), score: i32) -> SearchView {
    let best = if improves(s, score) {
        score
    } else {
        s.best_score
    };
    SearchView {
        maximizing: s.maximizing,
        best_score: best,
        best_move: if improves(s, score) {
            Some(mv)
        } else {
            s.best_move
        },
        alpha: if s.maximizing {
            max_score(s.alpha, best)
        } else {
            s.alpha
        },
        beta: if s.maximizing {
            s.beta
        } else {
            min_score(s.beta, best)
        },
        pruning: s.pruning,
    }
}

/// The search goes on unless it prunes and the window has closed.
pub open spec fn goes_on(s: SearchView) -> bool {
    !(s.pruning && s.alpha >= s.beta)
}

/// The search after each of `moves` in turn.
pub open spec fn run(s: SearchView, moves: Seq<((usize, usize), i32)>) -> SearchView
    decreases moves.len(),
{
    if moves.len() == 0 {
        s
    } else {
        step(run(s, moves.drop_last()), moves.last().0, moves.last().1)
    }
}

/// What a search returns: the best score and the best move, `(0, 0)` if none.
pub open spec fn outcome_of(s: SearchView) -> (i32, usize, usize) {
    match s.best_move {
        Some(m) => (s.best_score, m.0, m.1),
        None => (s.best_score, 0, 0),
    }
}

/// The decisions of one node of a minimax search: it is told, move by move,
/// the score each move leads to, keeps the best one for the player to move,
/// and, when pruning, says when the remaining moves need not be tried.
pub struct MoveSearch {
    maximizing: bool,
    best_score: i32,
    best_move: Option<(usize, usize)>,
    alpha: i32,
    beta: i32,
    pruning: bool,
}

impl View for MoveSearch {
    type V = SearchView;

    closed spec fn view(&self) -> SearchView {
        SearchView {
            maximizing: self.maximizing,
            best_score: self.best_score,
            best_move: self.best_move,
            alpha: self.alpha,
            beta: self.beta,
            pruning: self.pruning,
        }
    }
}

impl MoveSearch {
    /// A search for `player` that tries every move.
    pub fn exhaustive(player: Player) -> (s: MoveSearch)
        ensures
            s@.maximizing == (player == Player::X),
            s@.best_score == if player == Player::X { WORST_FOR_X } else { WORST_FOR_O },
            s@.best_move is None,
            !s@.pruning,
            s@.alpha == WORST_FOR_X,
            s@.beta == WORST_FOR_O,
    {
        MoveSearch {
            maximizing: player == Player::X,
            best_score: if player == Player::X {
                WORST_FOR_X
            } else {
                WORST_FOR_O
            },
            best_move: None,
            alpha: WORST_FOR_X,
            beta: WORST_FOR_O,
            pruning: false,
        }
    }

    /// A search for `player` within the alpha-beta window `(alpha, beta)`.
    pub fn pruned(player: Player, alpha: i32, beta: i32) -> (s: MoveSearch)
        ensures
            s@.maximizing == (player == Player::X),
            s@.best_score == if player == Player::X { WORST_FOR_X } else { WORST_FOR_O },
            s@.best_move is None,
            s@.pruning,
            s@.alpha == alpha,
            s@.beta == beta,
    {
        MoveSearch {
            maximizing: player == Player::X,
            best_score: if player == Player::X {
                WORST_FOR_X
            } else {
                WORST_FOR_O
            },
            best_move: None,
            alpha,
            beta,
            pruning: true,
        }
    }

    /// Takes into account that `mv` leads to `score`; says whether the
    /// search should go on with the next move.
    pub fn consider(&mut self, mv: (usize, usize), score: i32) -> (more: bool)
        ensures
            final(self)@ == step(old(self)@, mv, score),
            more == goes_on(final(self)@),
    {
        let better = if self.maximizing {
            score > self.best_score
        } else {
            score < self.best_score
        };
        if better {
            self.best_score = score;
            self.best_move = Some(mv);
        }
        if self.maximizing {
            if self.best_score > self.alpha {
                self.alpha = self.best_score;
            }
        } else {
            if self.best_score < self.beta {
                self.beta = self.best_score;
            }
        }
        !(self.pruning && self.alpha >= self.beta)
    }

    /// The current alpha-beta window, handed to the search of the next move.
    pub fn window(&self) -> (w: (i32, i32))
        ensures
            w == (self@.alpha, self@.beta),
    {
        (self.alpha, self.beta)
    }

    /// The best score, and the best move or `(0, 0)` when no move improved
    /// on the starting score.
    pub fn outcome(&self) -> (r: (i32, usize, usize))
        ensures
            r == outcome_of(self@),
    {
        let (row, col) = match self.best_move {
            Some(m) => m,
            None => (0, 0),
        };
        (self.best_score, row, col)
    }
}

impl SolutionAgent {
    /// The player who moves after `player`.
    pub fn opponent(player: Player) -> (p: Player)
        ensures
            p == other(player),
    {
        match player {
            Player::X => Player::O,
            Player::O => Player::X,
        }
    }

    /// Whether the search of the larger board evaluates this node instead of
    /// expanding it: the game is over or the depth limit is reached.
    pub fn is_leaf(game_over: bool, depth: u32, max_depth: u32) -> (b: bool)
        ensures
            b == (game_over || depth == max_depth),
    {
        game_over || depth == max_depth
    }
}

/// The cell with X and O exchanged.
pub open spec fn swap_cell(c: Cell) -> Cell {
    match c {
        Cell::X => Cell::O,
        Cell::O => Cell::X,
        other => other,
    }
}

/// The board with X and O exchanged.
pub open spec fn swapped(g: Seq<Seq<Cell>>) -> Seq<Seq<Cell>> {
    g.map_values(|row: Seq<Cell>| row.map_values(|c: Cell| swap_cell(c)))
}

/// Every row of `g` has at least `g.len()` cells.
pub open spec fn square(g: Seq<Seq<Cell>>) -> bool {
    forall|r: int| 0 <= r < g.len() ==> #[trigger] g[r].len() >= g.len()
}

proof fn lemma_swap_at(g: Seq<Seq<Cell>>, r: int, c: int)
    requires
        square(g),
        0 <= r < g.len(),
        0 <= c < g.len(),
    ensures
        swapped(g)[r][c] == swap_cell(g[r][c]),
{
    assert(g[r].len() >= g.len());
}

proof fn lemma_trio_swap(c1: Cell, c2: Cell, c3: Cell)
    ensures
        trio_value(swap_cell(c1), swap_cell(c2), swap_cell(c3)) == -trio_value(c1, c2, c3),
{
}

proof fn lemma_centrality_row_swap(g: Seq<Seq<Cell>>, r: int, c: int)
    requires
        square(g),
        0 <= r < g.len(),
        0 <= c <= g.len(),
    ensures
        centrality_row(swapped(g), r, c) == -centrality_row(g, r, c),
    decreases c,
{
    if c > 0 {
        lemma_centrality_row_swap(g, r, c - 1);
        lemma_swap_at(g, r, c - 1);
    }
}

proof fn lemma_centrality_rows_swap(g: Seq<Seq<Cell>>, r: int)
    requires
        square(g),
        0 <= r <= g.len(),
    ensures
        centrality_rows(swapped(g), g.len() as int, r) == -centrality_rows(g, g.len() as int, r),
    decreases r,
{
    if r > 0 {
        lemma_centrality_rows_swap(g, r - 1);
        lemma_centrality_row_swap(g, r - 1, g.len() as int);
    }
}

proof fn lemma_trio_at_swap(g: Seq<Seq<Cell>>, r: int, c: int, k: int)
    requires
        square(g),
        0 <= r < g.len(),
        0 <= c < g.len(),
    ensures
        trio_at(swapped(g), g.len() as int, r, c, k) == -trio_at(g, g.len() as int, r, c, k),
{
    let n = g.len() as int;
    lemma_swap_at(g, r, c);
    if c + 2 < n {
        lemma_swap_at(g, r, c + 1);
        lemma_swap_at(g, r, c + 2);
        lemma_trio_swap(g[r][c], g[r][c + 1], g[r][c + 2]);
    }
    if r + 2 < n {
        lemma_swap_at(g, r + 1, c);
        lemma_swap_at(g, r + 2, c);
        lemma_trio_swap(g[r][c], g[r + 1][c], g[r + 2][c]);
        if c + 2 < n {
            lemma_swap_at(g, r + 1, c + 1);
            lemma_swap_at(g, r + 2, c + 2);
            lemma_trio_swap(g[r][c], g[r + 1][c + 1], g[r + 2][c + 2]);
        }
        if c >= 2 {
            lemma_swap_at(g, r + 1, c - 1);
            lemma_swap_at(g, r + 2, c - 2);
            lemma_trio_swap(g[r][c], g[r + 1][c - 1], g[r + 2][c - 2]);
        }
    }
}

proof fn lemma_trios_at_swap(g: Seq<Seq<Cell>>, r: int, c: int, m: int)
    requires
        square(g),
        0 <= r < g.len(),
        0 <= c < g.len(),
    ensures
        trios_at(swapped(g), g.len() as int, r, c, m) == -trios_at(g, g.len() as int, r, c, m),
    decreases m,
{
    if m > 0 {
        lemma_trios_at_swap(g, r, c, m - 1);
        lemma_trio_at_swap(g, r, c, m - 1);
    }
}

proof fn lemma_trio_row_swap(g: Seq<Seq<Cell>>, r: int, c: int)
    requires
        square(g),
        0 <= r < g.len(),
        0 <= c <= g.len(),
    ensures
        trio_row(swapped(g), g.len() as int, r, c) == -trio_row(g, g.len() as int, r, c),
    decreases c,
{
    if c > 0 {
        lemma_trio_row_swap(g, r, c - 1);
        lemma_trios_at_swap(g, r, c - 1, 4);
    }
}

proof fn lemma_trio_rows_swap(g: Seq<Seq<Cell>>, r: int)
    requires
        square(g),
        0 <= r <= g.len(),
    ensures
        trio_rows(swapped(g), g.len() as int, r) == -trio_rows(g, g.len() as int, r),
    decreases r,
{
    if r > 0 {
        lemma_trio_rows_swap(g, r - 1);
        lemma_trio_row_swap(g, r - 1, g.len() as int);
    }
}

/// Law: the evaluation is symmetric between the players: exchanging X and O
/// on the board and negating the game's score negates the evaluation.
pub proof fn law_heuristic_antisymmetric(score: i32, g: Seq<Seq<Cell>>)
    requires
        square(g),
        score > i32::MIN,
    ensures
        heuristic_value((-score) as i32, swapped(g)) == -heuristic_value(score, g),
{
    assert(swapped(g).len() == g.len());
    lemma_centrality_rows_swap(g, g.len() as int);
    lemma_trio_rows_swap(g, g.len() as int);
}

/// `a` is at least as good as `b` for the player the search is for.
pub open spec fn at_least_as_good(maximizing: bool, a: i32, b: i32) -> bool {
    if maximizing {
        a >= b
    } else {
        a <= b
    }
}

/// Law: a search keeps the best score among the moves it was told of (or
/// its starting score, if none beats it), and the move it keeps is the first
/// one that reached that score.
pub proof fn law_search_keeps_first_best(s: SearchView, moves: Seq<((usize, usize), i32)>)
    requires
        s.best_move is None,
    ensures
        at_least_as_good(s.maximizing, run(s, moves).best_score, s.best_score),
        forall|i: int|
            0 <= i < moves.len() ==> at_least_as_good(
                s.maximizing,
                run(s, moves).best_score,
                #[trigger] moves[i].1,
            ),
        run(s, moves).best_move is None ==> run(s, moves).best_score == s.best_score,
        run(s, moves).best_move matches Some(m) ==> exists|i: int|
            0 <= i < moves.len() && #[trigger] moves[i] == (m, run(s, moves).best_score) && forall|j: int|
                0 <= j < i ==> !at_least_as_good(s.maximizing, moves[j].1, run(s, moves).best_score),
        run(s, moves).maximizing == s.maximizing,
        run(s, moves).pruning == s.pruning,
    decreases moves.len(),
{
    if moves.len() > 0 {
        let prev = moves.drop_last();
        law_search_keeps_first_best(s, prev);
        let r = run(s, prev);
        let last = moves.last();
        assert forall|i: int| 0 <= i < prev.len() implies moves[i] == prev[i] by {}
        if improves(r, last.1) {
            assert(moves[moves.len() - 1] == (last.0, last.1));
        } else {
            if r.best_move is Some {
                let m = r.best_move->0;
                let i = choose|i: int|
                    0 <= i < prev.len() && #[trigger] prev[i] == (m, r.best_score) && forall|j: int|
                        0 <= j < i ==> !at_least_as_good(s.maximizing, prev[j].1, r.best_score);
                assert(moves[i] == (m, r.best_score));
            }
        }
    }
}

/// Law: with alpha-beta bounds, the window narrows to the best score: for X,
/// alpha becomes the larger of its start and the best score, and beta stays;
/// for O, beta becomes the smaller of its start and the best score.
pub proof fn law_window_tracks_best(s: SearchView, moves: Seq<((usize, usize), i32)>)
    requires
        moves.len() > 0,
    ensures
        s.maximizing ==> run(s, moves).alpha == max_score(s.alpha, run(s, moves).best_score)
            && run(s, moves).beta == s.beta,
        !s.maximizing ==> run(s, moves).beta == min_score(s.beta, run(s, moves).best_score)
            && run(s, moves).alpha == s.alpha,
    decreases moves.len(),
{
    lemma_best_monotone(s, moves);
    if moves.len() > 1 {
        law_window_tracks_best(s, moves.drop_last());
        lemma_best_monotone(s, moves.drop_last());
    }
}

/// The best score only gets better, and the direction never changes.
proof fn lemma_best_monotone(s: SearchView, moves: Seq<((usize, usize), i32)>)
    ensures
        run(s, moves).maximizing == s.maximizing,
        at_least_as_good(s.maximizing, run(s, moves).best_score, s.best_score),
        moves.len() > 0 ==> at_least_as_good(
            s.maximizing,
            run(s, moves).best_score,
            run(s, moves.drop_last()).best_score,
        ),
    decreases moves.len(),
{
    if moves.len() > 0 {
        lemma_best_monotone(s, moves.drop_last());
    }
}

/// Law: a trio holding both an X and an O threatens nobody and is worth
/// nothing.
pub proof fn law_blocked_trio_is_worthless(c1: Cell, c2: Cell, c3: Cell)
    requires
        c1 == Cell::X || c2 == Cell::X || c3 == Cell::X,
        c1 == Cell::O || c2 == Cell::O || c3 == Cell::O,
    ensures
        trio_value(c1, c2, c3) == 0,
{
}

/// Law: a trio is worth 50 exactly when it holds two X and one empty cell,
/// -50 exactly when it holds two O and one empty cell, 5 exactly when it holds
/// one X and two empty cells, -5 exactly when one O and two empty cells, and
/// nothing otherwise.
pub proof fn law_trio_values(c1: Cell, c2: Cell, c3: Cell)
    ensures
        ({
            let s = seq![c1, c2, c3];
            let xs = s.filter(|c: Cell| c == Cell::X).len();
            let os = s.filter(|c: Cell| c == Cell::O).len();
            let free = s.filter(|c: Cell| c == Cell::Empty).len();
            &&& trio_value(c1, c2, c3) == 50 <==> (xs == 2 && free == 1)
            &&& trio_value(c1, c2, c3) == -50 <==> (os == 2 && free == 1)
            &&& trio_value(c1, c2, c3) == 5 <==> (xs == 1 && free == 2)
            &&& trio_value(c1, c2, c3) == -5 <==> (os == 1 && free == 2)
            &&& trio_value(c1, c2, c3) == 0 <==> !((xs == 2 || os == 2) && free == 1) && !((xs == 1
                || os == 1) && free == 2)
        }),
{
    let s = seq![c1, c2, c3];
    reveal_with_fuel(Seq::filter, 4);
    assert(s.drop_last() =~= seq![c1, c2]);
    assert(s.drop_last().drop_last() =~= seq![c1]);
    assert(s.drop_last().drop_last().drop_last() =~= Seq::<Cell>::empty());
}

} // verus!
