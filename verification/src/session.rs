//! The session layer: the single authoritative board for one play session,
//! the append-only record of submitted moves, and the mistake counter.

use vstd::prelude::*;

use crate::board::{
    cell_updated, cells_unchanged, move_result_matches, SudokuBoard, SudokuMove, SudokuMoveResult,
};
use crate::coords::CellCoordinate;
use crate::subgrid::MoveError;

verus! {

/// One play session: a board created empty at session start, the ordered
/// history of every completed submission, and how many of them were
/// rejected. History and mistake count only ever grow.
pub struct SudokuApp {
    board: SudokuBoard,
    move_history: Vec<SudokuMove>,
    nr_mistakes: usize,
}

impl SudokuApp {
    /// The authoritative board.
    pub closed spec fn spec_board(self) -> SudokuBoard {
        self.board
    }

    /// The completed submissions, in submission order.
    pub closed spec fn spec_history(self) -> Seq<SudokuMove> {
        self.move_history@
    }

    /// How many completed submissions were rejected.
    pub closed spec fn spec_mistakes(self) -> nat {
        self.nr_mistakes as nat
    }

    /// The session invariant: the board keeps its fixed domain, and there
    /// are never more mistakes than completed submissions.
    pub open spec fn wf(self) -> bool {
        &&& self.spec_board().wf()
        &&& self.spec_mistakes() <= self.spec_history().len()
    }

    /// A fresh session: an all-empty board, no history, no mistakes.
    pub fn new() -> (s: SudokuApp)
        ensures
            s.wf(),
            s.spec_history().len() == 0,
            s.spec_mistakes() == 0,
            forall|c: CellCoordinate| s.spec_board().cell_value(c) is None,
    {
        SudokuApp { board: SudokuBoard::new(), move_history: Vec::new(), nr_mistakes: 0 }
    }

    /// Applies the move to the board — always, so that a rejected digit
    /// stays visible — appends it to the history, and counts a mistake
    /// exactly when the result was a rejection. An out-of-range digit is a
    /// hard failure: nothing is written, recorded, or counted.
    pub fn submit(&mut self, sudoku_move: SudokuMove) -> (r: Result<SudokuMoveResult, MoveError>)
        requires
            old(self).wf(),
        ensures
            final(self).wf(),
            sudoku_move.value > 9 ==> {
                &&& r == Result::<SudokuMoveResult, MoveError>::Err(MoveError::InvalidValue)
                &&& cells_unchanged(old(self).spec_board(), final(self).spec_board())
                &&& final(self).spec_history() == old(self).spec_history()
                &&& final(self).spec_mistakes() == old(self).spec_mistakes()
            },
            sudoku_move.value <= 9 ==> {
                &&& r is Ok
                &&& cell_updated(
                    old(self).spec_board(),
                    final(self).spec_board(),
                    sudoku_move.cell_coordinate,
                    sudoku_move.value,
                )
                &&& move_result_matches(final(self).spec_board(), sudoku_move, r->Ok_0)
                &&& final(self).spec_history() == old(self).spec_history().push(sudoku_move)
                &&& final(self).spec_mistakes() == old(self).spec_mistakes() + (
                if r->Ok_0 is Rejected {
                    1nat
                } else {
                    0nat
                })
            },
    {
        let res = self.board.make_move(&sudoku_move);
        match res {
            Err(e) => Err(e),
            Ok(outcome) => {
                self.move_history.push(sudoku_move);
                let n = self.move_history.len();
                if let SudokuMoveResult::Rejected(_) = &outcome {
                    assert(self.nr_mistakes < n);
                    self.nr_mistakes = self.nr_mistakes + 1;
                }
                Ok(outcome)
            },
        }
    }

    /// The digit stored at the addressed cell of the session's board, or
    /// `None` for an empty cell.
    pub fn get_value(&self, cell_coordinate: CellCoordinate) -> (r: Option<u8>)
        requires
            self.wf(),
        ensures
            r == self.spec_board().cell_value(cell_coordinate),
    {
        self.board.get_value(cell_coordinate)
    }

    /// The completed submissions, in submission order.
    pub fn history(&self) -> (r: &Vec<SudokuMove>)
        ensures
            r@ == self.spec_history(),
    {
        &self.move_history
    }

    /// How many completed submissions were rejected.
    pub fn mistakes(&self) -> (r: usize)
        ensures
            r == self.spec_mistakes(),
    {
        self.nr_mistakes
    }
}

} // verus!
