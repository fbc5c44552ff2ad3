use crate::{Board, Cell, Direction};
use vstd::prelude::*;

verus! {

/// The index of the `k`-th cell of a run.
pub open spec fn run_cell(origin: int, direction: Direction, k: int) -> int {
    origin + direction.cell_offset() * k
}

/// Whether two grid cells are the same cell or neighbours, diagonals
/// included: their rows differ by one at most, and so do their columns.
pub open spec fn touching(i: int, j: int) -> bool {
    &&& -1 <= i / 10 - j / 10 <= 1
    &&& -1 <= i % 10 - j % 10 <= 1
}

/// Whether a run of at least one cell lies on the grid as one straight line:
/// every cell is on the grid, and a horizontal run ends in the row it starts
/// in.
pub open spec fn run_fits(origin: int, direction: Direction, length: int) -> bool {
    &&& length >= 1
    &&& forall|k: int| 0 <= k < length ==> 0 <= #[trigger] run_cell(origin, direction, k) < 100
    &&& direction.is_horizontal() ==> origin / 10 == run_cell(origin, direction, length - 1) / 10
}

/// Whether neither the grid cell `t` nor any of its neighbours on the grid
/// holds an unhit ship. Beyond the edge of the grid there is no cell, and so
/// nothing that could stand in the way.
pub open spec fn cell_is_clear(board: Seq<Cell>, t: int) -> bool {
    forall|i: int| 0 <= i < board.len() && #[trigger] touching(i, t) ==> board[i] != Cell::Ship
}

/// Whether no unhit ship stands on or beside any cell of the run.
pub open spec fn run_is_clear(board: Seq<Cell>, origin: int, direction: Direction, length: int) -> bool {
    forall|k: int|
        0 <= k < length ==> cell_is_clear(board, #[trigger] run_cell(origin, direction, k))
}

/// Whether a ship of `length` cells may be placed from `origin` in
/// `direction`: the run lies on the grid as one straight line, and no ship
/// stands on any of its cells or on a cell that touches one of them, corners
/// included. A run of no cell may always be placed, one of negative length
/// never.
pub open spec fn allocable(board: Seq<Cell>, origin: int, direction: Direction, length: int) -> bool {
    &&& length >= 0
    &&& length >= 1 ==> run_fits(origin, direction, length)
    &&& run_is_clear(board, origin, direction, length)
}

fn row_of(i: i64) -> (r: i64)
    requires
        -0x1_0000_0000_0000 <= i <= 0x1_0000_0000_0000,
    ensures
        r == i / 10,
{
    if i >= 0 {
        i / 10
    } else {
        -((9 - i) / 10)
    }
}

fn scaled(offset: i64, k: i64) -> (r: i64)
    requires
        -10 <= offset <= 10,
        -0x1_0000_0000 <= k <= 0x1_0000_0000,
    ensures
        r == offset * k,
        -0x10_0000_0000 <= r <= 0x10_0000_0000,
{
    assert(-0x10_0000_0000 <= offset * k <= 0x10_0000_0000) by (nonlinear_arith)
        requires
            -10 <= offset <= 10,
            -0x1_0000_0000 <= k <= 0x1_0000_0000,
    ;
    offset * k
}

/// Whether row `row` and column `col` name a cell of the grid that holds an
/// unhit ship.
pub open spec fn is_ship_on(board: Seq<Cell>, row: int, col: int) -> bool {
    0 <= row <= 9 && 0 <= col <= 9 && board[row * 10 + col] == Cell::Ship
}

fn ship_on(board: &Board, row: i64, col: i64) -> (r: bool)
    requires
        -1 <= row <= 10,
        -1 <= col <= 10,
    ensures
        r == is_ship_on(board@, row as int, col as int),
{
    if 0 <= row && row <= 9 && 0 <= col && col <= 9 {
        board[(row * 10 + col) as usize] == Cell::Ship
    } else {
        false
    }
}

/// A ship in a row and a column next to those of `t` stands on a cell that
/// touches `t`.
proof fn lemma_ship_beside(board: Seq<Cell>, t: int, row: int, col: int)
    requires
        board.len() == 100,
        0 <= t < 100,
        -1 <= row - t / 10 <= 1,
        -1 <= col - t % 10 <= 1,
        is_ship_on(board, row, col),
    ensures
        !cell_is_clear(board, t),
{
    let i = row * 10 + col;
    assert(i / 10 == row && i % 10 == col);
    assert(touching(i, t));
}

/// Looks at the cell `t` and at the cells round it, as far as the grid goes.
fn is_clear(board: &Board, t: i64) -> (clear: bool)
    requires
        0 <= t < 100,
    ensures
        clear == cell_is_clear(board@, t as int),
{
    let row: i64 = t / 10;
    let col: i64 = t % 10;
    let above = ship_on(board, row - 1, col - 1) || ship_on(board, row - 1, col) || ship_on(
        board,
        row - 1,
        col + 1,
    );
    let beside = ship_on(board, row, col - 1) || ship_on(board, row, col) || ship_on(
        board,
        row,
        col + 1,
    );
    let below = ship_on(board, row + 1, col - 1) || ship_on(board, row + 1, col) || ship_on(
        board,
        row + 1,
        col + 1,
    );
    proof {
        let b = board@;
        let (r, c) = (row as int, col as int);
        if is_ship_on(b, r - 1, c - 1) {
            lemma_ship_beside(b, t as int, r - 1, c - 1);
        } else if is_ship_on(b, r - 1, c) {
            lemma_ship_beside(b, t as int, r - 1, c);
        } else if is_ship_on(b, r - 1, c + 1) {
            lemma_ship_beside(b, t as int, r - 1, c + 1);
        } else if is_ship_on(b, r, c - 1) {
            lemma_ship_beside(b, t as int, r, c - 1);
        } else if is_ship_on(b, r, c) {
            lemma_ship_beside(b, t as int, r, c);
        } else if is_ship_on(b, r, c + 1) {
            lemma_ship_beside(b, t as int, r, c + 1);
        } else if is_ship_on(b, r + 1, c - 1) {
            lemma_ship_beside(b, t as int, r + 1, c - 1);
        } else if is_ship_on(b, r + 1, c) {
            lemma_ship_beside(b, t as int, r + 1, c);
        } else if is_ship_on(b, r + 1, c + 1) {
            lemma_ship_beside(b, t as int, r + 1, c + 1);
        } else {
            assert forall|i: int| 0 <= i < 100 && #[trigger] touching(i, t as int) implies b[i]
                != Cell::Ship by {
                assert(i == (i / 10) * 10 + i % 10);
                assert(!is_ship_on(b, i / 10, i % 10));
            }
        }
    }
    !(above || beside || below)
}

/// Tests whether a ship of `length` cells may be placed on `board` from
/// `origin_index` in `direction`, and if so returns the indices of its cells
/// in order from the origin.
pub fn execute(board: &Board, origin_index: i32, direction: &Direction, length: i32) -> (r: Option<
    Vec<i32>,
>)
    ensures
        r is Some <==> allocable(board@, origin_index as int, *direction, length as int),
        r matches Some(cells) ==> cells@.len() == length && forall|k: int|
            0 <= k < length ==> #[trigger] cells@[k] as int == run_cell(
                origin_index as int,
                *direction,
                k,
            ),
{
    if length < 0 {
        return None;
    }
    let cell_offset: i64 = match direction {
        Direction::Up => -10,
        Direction::Right => 1,
        Direction::Down => 10,
        Direction::Left => -1,
    };
    let origin: i64 = origin_index as i64;
    let last: i64 = origin + scaled(cell_offset, length as i64 - 1);
    let horizontal = match direction {
        Direction::Right | Direction::Left => true,
        _ => false,
    };
    if length >= 1 && horizontal && row_of(origin) != row_of(last) {
        return None;
    }
    let mut cells: Vec<i32> = Vec::new();
    let mut k: i32 = 0;
    while k < length
        invariant
            0 <= k <= length,
            origin == origin_index as int,
            cell_offset == direction.cell_offset(),
            cells@.len() == k,
            forall|j: int|
                0 <= j < k ==> 0 <= #[trigger] run_cell(origin as int, *direction, j) < 100,
            forall|j: int|
                0 <= j < k ==> cell_is_clear(
                    board@,
                    #[trigger] run_cell(origin as int, *direction, j),
                ),
            forall|j: int|
                0 <= j < k ==> #[trigger] cells@[j] as int == run_cell(
                    origin as int,
                    *direction,
                    j,
                ),
        decreases length - k,
    {
        let target: i64 = origin + scaled(cell_offset, k as i64);
        assert(target == run_cell(origin as int, *direction, k as int));
        if target < 0 || target >= 100 {
            return None;
        }
        if !is_clear(board, target) {
            return None;
        }
        cells.push(target as i32);
        k = k + 1;
    }
    Some(cells)
}

} // verus!
