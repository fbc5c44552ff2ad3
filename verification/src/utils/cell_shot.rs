use crate::utils::fleet::{lemma_ship_count_update, lemma_ship_count_zero, ship_count};
use crate::{Board, Cell};
use vstd::prelude::*;

verus! {

/// What a shot that landed found and brought about.
#[derive(Clone, Copy, Debug, PartialEq, Eq)]
pub struct ShotResult {
    pub has_ship: bool,
    pub won: bool,
}

/// Whether a shot at `index` lands: the index is on the board and the cell
/// was not shot at before.
pub open spec fn shot_lands(board: Seq<Cell>, index: int) -> bool {
    0 <= index < board.len() && (board[index] == Cell::Empty || board[index] == Cell::Ship)
}

/// The board after a shot at `index`: a shot that lands turns `Empty` into
/// `Hitted` and `Ship` into `HittedShip`; any other shot changes nothing.
pub open spec fn after_shot(board: Seq<Cell>, index: int) -> Seq<Cell> {
    if shot_lands(board, index) {
        board.update(
            index,
            if board[index] == Cell::Ship {
                Cell::HittedShip
            } else {
                Cell::Hitted
            },
        )
    } else {
        board
    }
}

/// Whether no cell of the board is an unhit ship.
pub fn all_sunk(board: &Board) -> (sunk: bool)
    ensures
        sunk == (ship_count(board@) == 0),
{
    let mut i: usize = 0;
    while i < 100
        invariant
            i <= 100,
            forall|j: int| 0 <= j < i ==> board@[j] != Cell::Ship,
        decreases 100 - i,
    {
        if board[i] == Cell::Ship {
            proof {
                lemma_ship_count_zero(board@);
                assert(board@[i as int] == Cell::Ship);
            }
            return false;
        }
        i = i + 1;
    }
    proof {
        lemma_ship_count_zero(board@);
    }
    true
}

/// Shoots at the cell at `index`. A shot that lands marks the cell and
/// returns whether it held a ship and whether no ship is left on the board;
/// a shot off the board or at a cell that was shot at before changes nothing
/// and returns `None`.
pub fn shot(board: &mut Board, index: u8) -> (r: Option<ShotResult>)
    ensures
        final(board)@ == after_shot(old(board)@, index as int),
        r is Some <==> shot_lands(old(board)@, index as int),
        r matches Some(result) ==> result.has_ship == (old(board)@[index as int] == Cell::Ship)
            && result.won == (ship_count(final(board)@) == 0),
{
    if index > 99 {
        return None;
    }
    let has_ship = match board[index as usize] {
        Cell::Empty => false,
        Cell::Ship => true,
        _ => {
            return None;
        },
    };
    board[index as usize] = if has_ship {
        Cell::HittedShip
    } else {
        Cell::Hitted
    };
    let won = all_sunk(board);
    Some(ShotResult { has_ship, won })
}

/// A second shot at a cell never lands: after any shot at `index` the board
/// stays as it is under another shot at `index`.
pub proof fn lemma_second_shot_is_ignored(board: Seq<Cell>, index: int)
    ensures
        !shot_lands(after_shot(board, index), index),
        after_shot(after_shot(board, index), index) == after_shot(board, index),
{
}

/// A shot that lands on a board with ships left sinks the last ship exactly
/// when it hits a ship and that ship cell was the only one left; it never
/// adds a ship, and it takes one away only by hitting it.
pub proof fn lemma_last_ship(board: Seq<Cell>, index: int)
    requires
        shot_lands(board, index),
    ensures
        ship_count(after_shot(board, index)) == ship_count(board) - if board[index] == Cell::Ship {
            1int
        } else {
            0int
        },
        ship_count(after_shot(board, index)) == 0 && ship_count(board) > 0 <==> board[index]
            == Cell::Ship && ship_count(board) == 1,
{
    lemma_ship_count_update(
        board,
        index,
        if board[index] == Cell::Ship {
            Cell::HittedShip
        } else {
            Cell::Hitted
        },
    );
}

} // verus!
