use crate::utils::fleet::{
    fleet_cells, fleet_length, in_run, is_fleet_board, is_layout, lemma_allocable_is_apart,
    lemma_ship_count_update, occupied, ship_count, shows, with_run, Placement,
};
use crate::utils::is_ship_allocable::{allocable, cell_is_clear, run_cell, touching};
use crate::utils::is_ship_allocable;
use crate::{Board, Cell, Direction};
use vstd::prelude::*;

verus! {

/// Draws a number with `rand::random_range`, which takes it from the
/// thread's random generator, over the half-open range from zero to `bound`.
/// The contract claims only that the number lies in that range. The function
/// panics on an empty range, which `bound > 0` rules out.
#[verifier::external_body]
fn random_below(bound: i32) -> (r: i32)
    requires
        bound > 0,
    ensures
        0 <= r < bound,
{
    rand::random_range(0..bound)
}

/// The length of the `n`-th ship of the fleet.
fn ship_length(n: usize) -> (length: i32)
    ensures
        length == fleet_length(n as int),
{
    if n < 1 {
        4
    } else if n < 3 {
        3
    } else if n < 6 {
        2
    } else {
        1
    }
}

/// Places a ship of `length` cells from `origin_index` in `direction` if it
/// may stand there, and says whether it did. A ship that may not stand there
/// leaves the board as it was.
pub fn place(board: &mut Board, origin_index: i32, direction: &Direction, length: i32) -> (placed:
    bool)
    ensures
        placed == allocable(old(board)@, origin_index as int, *direction, length as int),
        placed ==> final(board)@ == with_run(
            old(board)@,
            origin_index as int,
            *direction,
            length as int,
        ),
        placed ==> ship_count(final(board)@) == ship_count(old(board)@) + length,
        !placed ==> final(board)@ == old(board)@,
{
    let ghost before = board@;
    let ghost origin = origin_index as int;
    match is_ship_allocable::execute(board, origin_index, direction, length) {
        None => false,
        Some(cells) => {
            let mut k: usize = 0;
            while k < cells.len()
                invariant
                    k <= cells.len(),
                    cells.len() == length,
                    before.len() == 100,
                    allocable(before, origin, *direction, length as int),
                    forall|j: int|
                        0 <= j < length ==> #[trigger] cells@[j] as int == run_cell(
                            origin,
                            *direction,
                            j,
                        ),
                    board@ == with_run(before, origin, *direction, k as int),
                    ship_count(board@) == ship_count(before) + k,
                decreases cells.len() - k,
            {
                let cell = cells[k];
                proof {
                    let target = run_cell(origin, *direction, k as int);
                    assert(cell as int == target);
                    assert(0 <= target < 100);
                    assert(cell_is_clear(before, target) && touching(target, target));
                    assert(!in_run(origin, *direction, k as int, target)) by {
                        assert forall|j: int| 0 <= j < k implies target != run_cell(
                            origin,
                            *direction,
                            j,
                        ) by {
                            lemma_run_distinct(origin, *direction, j, k as int);
                        }
                    }
                    lemma_ship_count_update(board@, target, Cell::Ship);
                }
                let ghost previous = board@;
                board[cell as usize] = Cell::Ship;
                k = k + 1;
                proof {
                    let target = cell as int;
                    assert(board@ == previous.update(target, Cell::Ship));
                    assert forall|i: int| 0 <= i < 100 implies board@[i] == with_run(
                        before,
                        origin,
                        *direction,
                        k as int,
                    )[i] by {
                        if in_run(origin, *direction, k as int, i) {
                            let j = choose|j: int|
                                0 <= j < k && i == #[trigger] run_cell(origin, *direction, j);
                            if j < k - 1 {
                                assert(in_run(origin, *direction, k - 1, i));
                            }
                        } else {
                            assert(i != run_cell(origin, *direction, k - 1));
                            if in_run(origin, *direction, k - 1, i) {
                                let j = choose|j: int|
                                    0 <= j < k - 1 && i == #[trigger] run_cell(
                                        origin,
                                        *direction,
                                        j,
                                    );
                                assert(0 <= j < k && i == run_cell(origin, *direction, j));
                            }
                        }
                    }
                    assert(board@ =~= with_run(before, origin, *direction, k as int));
                }
            }
            true
        },
    }
}

/// Two different cells of a run have different indices.
proof fn lemma_run_distinct(origin: int, direction: Direction, j: int, k: int)
    requires
        j != k,
    ensures
        run_cell(origin, direction, j) != run_cell(origin, direction, k),
{
    match direction {
        Direction::Up => {},
        Direction::Right => {},
        Direction::Down => {},
        Direction::Left => {},
    }
}

/// Placing one more ship where it may stand extends a layout: the new ship
/// lies on the grid, is apart from every ship placed before, and the board
/// shows the longer layout.
pub proof fn lemma_place_extends(
    board: Seq<Cell>,
    ships: Seq<Placement>,
    origin: int,
    direction: Direction,
)
    requires
        ships.len() < 10,
        is_layout(ships),
        shows(board, ships),
        allocable(board, origin, direction, fleet_length(ships.len() as int)),
    ensures
        is_layout(ships.push(Placement { origin, direction, length: fleet_length(ships.len() as int) })),
        shows(
            with_run(board, origin, direction, fleet_length(ships.len() as int)),
            ships.push(Placement { origin, direction, length: fleet_length(ships.len() as int) }),
        ),
{
    let length = fleet_length(ships.len() as int);
    let ship = Placement { origin, direction, length };
    let longer = ships.push(ship);
    let after = with_run(board, origin, direction, length);
    assert(ship.fits());
    assert forall|m: int| 0 <= m < ships.len() implies (#[trigger] ships[m]).apart(ship)
        && ship.apart(ships[m]) by {
        let other = ships[m];
        assert forall|i: int, j: int| other.covers(i) && ship.covers(j) implies !touching(i, j) by {
            let k = choose|k: int|
                0 <= k < other.length && i == #[trigger] run_cell(
                    other.origin,
                    other.direction,
                    k,
                );
            assert(0 <= i < 100);
            assert(occupied(ships, i));
            assert(board[i] == Cell::Ship);
            if touching(i, j) {
                lemma_allocable_is_apart(board, origin, direction, length, i, j);
            }
        }
        assert(other.apart(ship));
        assert forall|j: int, i: int| ship.covers(j) && other.covers(i) implies !touching(j, i) by {
            assert(!touching(i, j));
        }
    }
    assert forall|m: int, n: int|
        0 <= m < longer.len() && 0 <= n < longer.len() && m != n implies (#[trigger] longer[m]).apart(
        #[trigger] longer[n],
    ) by {
        if m < ships.len() && n < ships.len() {
            assert(ships[m].apart(ships[n]));
        } else if m < ships.len() {
            assert(ships[m].apart(ship));
        } else {
            assert(ship.apart(ships[n]));
        }
    }
    assert forall|n: int| 0 <= n < longer.len() implies (#[trigger] longer[n]).length
        == fleet_length(n) && longer[n].fits() by {
        if n < ships.len() {
            assert(longer[n] == ships[n]);
        }
    }
    assert forall|i: int| 0 <= i < 100 implies #[trigger] after[i] == if occupied(longer, i) {
        Cell::Ship
    } else {
        Cell::Empty
    } by {
        if in_run(origin, direction, length, i) {
            assert(longer[ships.len() as int].covers(i));
        } else if occupied(ships, i) {
            let n = choose|n: int| 0 <= n < ships.len() && (#[trigger] ships[n]).covers(i);
            assert(longer[n].covers(i));
        } else {
            assert(board[i] == Cell::Empty);
            if occupied(longer, i) {
                let n = choose|n: int| 0 <= n < longer.len() && (#[trigger] longer[n]).covers(i);
                if n < ships.len() {
                    assert(ships[n].covers(i));
                }
            }
        }
    }
}

/// One try for a ship: where it starts and which way it goes.
#[derive(Clone, Copy, Debug, PartialEq, Eq)]
pub struct Draw {
    pub direction: Direction,
    pub origin: i32,
}

/// Tries one draw for the ship that is next when `placed` ships stand.
/// Returns the number of ships that stand afterwards, one more if the ship
/// fits there; else the board stays as it is.
pub fn attempt(board: &mut Board, placed: usize, draw: &Draw) -> (now: usize)
    requires
        placed < 10,
    ensures
        now == if allocable(
            old(board)@,
            draw.origin as int,
            draw.direction,
            fleet_length(placed as int),
        ) {
            placed + 1
        } else {
            placed as int
        },
        final(board)@ == if now > placed {
            with_run(old(board)@, draw.origin as int, draw.direction, fleet_length(placed as int))
        } else {
            old(board)@
        },
        ship_count(final(board)@) == ship_count(old(board)@) + if now > placed {
            fleet_length(placed as int)
        } else {
            0
        },
{
    if place(board, draw.origin, &draw.direction, ship_length(placed)) {
        placed + 1
    } else {
        placed
    }
}

/// The board without a ship.
pub open spec fn empty_board() -> Seq<Cell> {
    Seq::new(100, |i: int| Cell::Empty)
}

/// The board and the number of ships on it after `draws` have been tried in
/// their order, from a board on which the first `placed` ships of the fleet
/// stand: each draw is tried for the ship that is next, and draws that come
/// after the tenth ship has been placed are not looked at.
pub open spec fn arranged(board: Seq<Cell>, placed: int, draws: Seq<Draw>) -> (Seq<Cell>, int)
    decreases draws.len(),
{
    if draws.len() == 0 || placed >= 10 {
        (board, placed)
    } else if allocable(board, draws[0].origin as int, draws[0].direction, fleet_length(placed)) {
        arranged(
            with_run(board, draws[0].origin as int, draws[0].direction, fleet_length(placed)),
            placed + 1,
            draws.skip(1),
        )
    } else {
        arranged(board, placed, draws.skip(1))
    }
}

/// Places the fleet on an empty board by the given draws, tried in their
/// order, each for the ship that is next. Returns the board if all ten ships
/// came to stand, else `None`.
pub fn arrange(draws: &Vec<Draw>) -> (r: Option<Board>)
    ensures
        r is Some <==> arranged(empty_board(), 0, draws@).1 == 10,
        r matches Some(board) ==> board@ == arranged(empty_board(), 0, draws@).0 && is_fleet_board(
            board@,
        ) && ship_count(board@) == 20,
{
    let mut board: Board = [Cell::Empty; 100];
    let mut placed: usize = 0;
    let mut i: usize = 0;
    let ghost mut ships: Seq<Placement> = Seq::empty();
    proof {
        lemma_ship_count_empty(board@);
        assert forall|i: int| 0 <= i < 100 implies !occupied(ships, i) by {}
        assert(board@ =~= empty_board());
        assert(draws@.skip(0) =~= draws@);
    }
    while i < draws.len() && placed < 10
        invariant
            i <= draws@.len(),
            placed <= 10,
            ships.len() == placed,
            is_layout(ships),
            shows(board@, ships),
            ship_count(board@) == fleet_cells(placed as int),
            arranged(empty_board(), 0, draws@) == arranged(board@, placed as int, draws@.skip(i as int)),
        decreases draws@.len() - i,
    {
        let ghost before = board@;
        let ghost rest = draws@.skip(i as int);
        proof {
            assert(rest[0] == draws@[i as int]);
            assert(rest.skip(1) =~= draws@.skip(i + 1));
        }
        let now = attempt(&mut board, placed, &draws[i]);
        proof {
            if now > placed {
                lemma_place_extends(before, ships, draws@[i as int].origin as int, draws@[i as int].direction);
                ships = ships.push(
                    Placement {
                        origin: draws@[i as int].origin as int,
                        direction: draws@[i as int].direction,
                        length: fleet_length(placed as int),
                    },
                );
            }
        }
        placed = now;
        i = i + 1;
    }
    if placed == 10 {
        proof {
            assert(fleet_cells(10) == 20) by {
                reveal_with_fuel(fleet_cells, 11);
            }
        }
        Some(board)
    } else {
        None
    }
}

/// Trying one more draw after others gives what that draw alone gives from
/// where the others ended.
pub proof fn lemma_arranged_push(board: Seq<Cell>, placed: int, draws: Seq<Draw>, draw: Draw)
    ensures
        arranged(board, placed, draws.push(draw)) == arranged(
            arranged(board, placed, draws).0,
            arranged(board, placed, draws).1,
            seq![draw],
        ),
    decreases draws.len(),
{
    let longer = draws.push(draw);
    if draws.len() == 0 {
        assert(longer =~= seq![draw]);
    } else if placed >= 10 {
    } else {
        assert(longer[0] == draws[0]);
        assert(longer.skip(1) =~= draws.skip(1).push(draw));
        if allocable(board, draws[0].origin as int, draws[0].direction, fleet_length(placed)) {
            lemma_arranged_push(
                with_run(board, draws[0].origin as int, draws[0].direction, fleet_length(placed)),
                placed + 1,
                draws.skip(1),
                draw,
            );
        } else {
            lemma_arranged_push(board, placed, draws.skip(1), draw);
        }
    }
}

/// Places the fleet at random on an empty board: for each ship in turn, from
/// the longest to the shortest, a direction and an origin are drawn until the
/// ship may stand there. At most `max_attempts` draws of both are made over
/// the whole fleet; `None` says that they ran out before the last ship stood.
///
/// What the draws are is left to the random generator, so a board is never
/// owed. Every board that is returned is what some draws, no more than
/// `max_attempts`, arrange, and so holds exactly the fleet; and `None` comes
/// only after `max_attempts` draws that left a ship without a place.
pub fn execute(max_attempts: u64) -> (r: Option<Board>)
    ensures
        r matches Some(board) ==> is_fleet_board(board@) && ship_count(board@) == 20,
        r matches Some(board) ==> exists|draws: Seq<Draw>|
            draws.len() <= max_attempts && #[trigger] arranged(empty_board(), 0, draws) == (
                board@,
                10int,
            ),
        r is None ==> exists|draws: Seq<Draw>|
            draws.len() == max_attempts && (#[trigger] arranged(empty_board(), 0, draws)).1 < 10,
        max_attempts < 10 ==> r is None,
{
    let mut board: Board = [Cell::Empty; 100];
    let mut attempts: u64 = max_attempts;
    let mut placed: usize = 0;
    let ghost mut ships: Seq<Placement> = Seq::empty();
    let ghost mut drawn: Seq<Draw> = Seq::empty();
    proof {
        lemma_ship_count_empty(board@);
        assert forall|i: int| 0 <= i < 100 implies !occupied(ships, i) by {}
        assert(board@ =~= empty_board());
    }
    while placed < 10
        invariant
            placed <= 10,
            ships.len() == placed,
            is_layout(ships),
            shows(board@, ships),
            ship_count(board@) == fleet_cells(placed as int),
            attempts + placed <= max_attempts,
            attempts + drawn.len() == max_attempts,
            arranged(empty_board(), 0, drawn) == (board@, placed as int),
        decreases attempts,
    {
        if attempts == 0 {
            assert(drawn.len() == max_attempts);
            assert(arranged(empty_board(), 0, drawn).1 < 10);
            return None;
        }
        attempts = attempts - 1;
        let draw = Draw {
            direction: Direction::from_index(random_below(4)),
            origin: random_below(100),
        };
        let ghost before = board@;
        let now = attempt(&mut board, placed, &draw);
        proof {
            if now > placed {
                lemma_place_extends(before, ships, draw.origin as int, draw.direction);
                ships = ships.push(
                    Placement {
                        origin: draw.origin as int,
                        direction: draw.direction,
                        length: fleet_length(placed as int),
                    },
                );
            }
            lemma_arranged_push(empty_board(), 0, drawn, draw);
            assert(seq![draw].skip(1).len() == 0);
            assert(seq![draw][0] == draw);
            assert(arranged(before, placed as int, seq![draw]) == (board@, now as int)) by {
                reveal_with_fuel(arranged, 2);
            }
            drawn = drawn.push(draw);
        }
        placed = now;
    }
    proof {
        assert(fleet_cells(10) == 20) by {
            reveal_with_fuel(fleet_cells, 11);
        }
    }
    Some(board)
}

/// A board without a ship counts none.
proof fn lemma_ship_count_empty(board: Seq<Cell>)
    requires
        forall|i: int| 0 <= i < board.len() ==> board[i] != Cell::Ship,
    ensures
        ship_count(board) == 0,
{
    crate::utils::fleet::lemma_ship_count_zero(board);
}

} // verus!
