use crate::utils::is_ship_allocable::{allocable, cell_is_clear, run_cell, run_fits, touching};
use crate::{Cell, Direction};
use vstd::prelude::*;

verus! {

/// One ship on the grid: a run of `length` cells from `origin` in `direction`.
pub struct Placement {
    pub origin: int,
    pub direction: Direction,
    pub length: int,
}

/// Whether index `i` is one of the cells of the run.
pub open spec fn in_run(origin: int, direction: Direction, length: int, i: int) -> bool {
    exists|k: int| 0 <= k < length && i == #[trigger] run_cell(origin, direction, k)
}

impl Placement {
    /// Whether the ship occupies the cell at index `i`.
    pub open spec fn covers(self, i: int) -> bool {
        in_run(self.origin, self.direction, self.length, i)
    }

    /// Whether the ship lies on the grid as one straight run: every cell is on
    /// the grid, and a horizontal ship ends in the row it starts in.
    pub open spec fn fits(self) -> bool {
        run_fits(self.origin, self.direction, self.length)
    }

    /// Whether no cell of one ship is the same as, or one of the eight
    /// neighbours of, a cell of the other.
    pub open spec fn apart(self, other: Placement) -> bool {
        forall|i: int, j: int| self.covers(i) && other.covers(j) ==> !touching(i, j)
    }
}

/// The length of the `n`-th ship of the fleet, in the order of placement.
pub open spec fn fleet_length(n: int) -> int {
    if n < 1 {
        4
    } else if n < 3 {
        3
    } else if n < 6 {
        2
    } else {
        1
    }
}

/// The number of cells that the first `n` ships of the fleet occupy.
pub open spec fn fleet_cells(n: int) -> int
    decreases n,
{
    if n <= 0 {
        0
    } else {
        fleet_cells(n - 1) + fleet_length(n - 1)
    }
}

/// Whether `ships` are the first ships of the fleet, each lying on the grid
/// and every two of them apart.
pub open spec fn is_layout(ships: Seq<Placement>) -> bool {
    &&& ships.len() <= 10
    &&& forall|n: int|
        0 <= n < ships.len() ==> (#[trigger] ships[n]).length == fleet_length(n) && ships[n].fits()
    &&& forall|m: int, n: int|
        0 <= m < ships.len() && 0 <= n < ships.len() && m != n ==> (#[trigger] ships[m]).apart(
            #[trigger] ships[n],
        )
}

/// Whether some ship of `ships` occupies the cell at index `i`.
pub open spec fn occupied(ships: Seq<Placement>, i: int) -> bool {
    exists|n: int| 0 <= n < ships.len() && (#[trigger] ships[n]).covers(i)
}

/// Whether `board` shows exactly `ships`: the cells they occupy are `Ship`
/// and all others are `Empty`.
pub open spec fn shows(board: Seq<Cell>, ships: Seq<Placement>) -> bool {
    &&& board.len() == 100
    &&& forall|i: int|
        0 <= i < 100 ==> #[trigger] board[i] == if occupied(ships, i) {
            Cell::Ship
        } else {
            Cell::Empty
        }
}

/// Whether `board` holds the whole fleet and nothing else: ten straight ships
/// of lengths 4, 3, 3, 2, 2, 2, 1, 1, 1, 1, none wrapping round a row's end
/// and no two of them touching, not even at a corner.
pub open spec fn is_fleet_board(board: Seq<Cell>) -> bool {
    exists|ships: Seq<Placement>| ships.len() == 10 && is_layout(ships) && shows(board, ships)
}

/// The number of `Ship` cells on a board.
pub open spec fn ship_count(board: Seq<Cell>) -> nat
    decreases board.len(),
{
    if board.len() == 0 {
        0
    } else {
        ship_count(board.drop_last()) + if board.last() == Cell::Ship {
            1nat
        } else {
            0nat
        }
    }
}

/// The board with the cells of a run set to `Ship`.
pub open spec fn with_run(board: Seq<Cell>, origin: int, direction: Direction, length: int) -> Seq<
    Cell,
> {
    Seq::new(
        board.len(),
        |i: int|
            if in_run(origin, direction, length, i) {
                Cell::Ship
            } else {
                board[i]
            },
    )
}

/// Writing `cell` at index `i` changes the number of ships by what left and
/// what came.
pub proof fn lemma_ship_count_update(board: Seq<Cell>, i: int, cell: Cell)
    requires
        0 <= i < board.len(),
    ensures
        ship_count(board.update(i, cell)) + (if board[i] == Cell::Ship {
            1int
        } else {
            0int
        }) == ship_count(board) + (if cell == Cell::Ship {
            1int
        } else {
            0int
        }),
    decreases board.len(),
{
    let after = board.update(i, cell);
    if i == board.len() - 1 {
        assert(after.drop_last() =~= board.drop_last());
    } else {
        assert(after.drop_last() =~= board.drop_last().update(i, cell));
        lemma_ship_count_update(board.drop_last(), i, cell);
    }
}

/// A board has no ship left exactly when its count of ships is zero.
pub proof fn lemma_ship_count_zero(board: Seq<Cell>)
    ensures
        ship_count(board) == 0 <==> forall|i: int| 0 <= i < board.len() ==> board[i] != Cell::Ship,
    decreases board.len(),
{
    if board.len() > 0 {
        lemma_ship_count_zero(board.drop_last());
        let front = board.drop_last();
        if ship_count(board) == 0 {
            assert forall|i: int| 0 <= i < board.len() implies board[i] != Cell::Ship by {
                if i < board.len() - 1 {
                    assert(front[i] == board[i]);
                }
            }
        }
        if forall|i: int| 0 <= i < board.len() ==> board[i] != Cell::Ship {
            assert forall|i: int| 0 <= i < front.len() implies front[i] != Cell::Ship by {
                assert(front[i] == board[i]);
            }
        }
    }
}

/// Where a run may be placed, no cell that touches it holds a ship.
pub proof fn lemma_allocable_is_apart(
    board: Seq<Cell>,
    origin: int,
    direction: Direction,
    length: int,
    i: int,
    j: int,
)
    requires
        board.len() == 100,
        allocable(board, origin, direction, length),
        in_run(origin, direction, length, j),
        0 <= i < 100,
        touching(i, j),
    ensures
        board[i] != Cell::Ship,
{
    let k = choose|k: int| 0 <= k < length && j == #[trigger] run_cell(origin, direction, k);
    assert(cell_is_clear(board, run_cell(origin, direction, k)));
}

} // verus!
