//! The full 9x9 board: nine sub-grids addressed by `PositionId`, move
//! application, and duplicate detection along the two global constraints
//! (row, column) that straddle sub-grid boundaries.

use vstd::prelude::*;

use crate::coords::{
    lemma_position_index_injective, lemma_position_index_range, CellCoordinate, Column,
    PositionId, Row,
};
use crate::subgrid::{MoveError, SubGrid, SubGridMove, SubgridMoveResult};

verus! {

/// A proposed placement of a digit at one cell of the board.
#[derive(Clone, Copy, Debug, PartialEq, Eq, Structural)]
pub struct SudokuMove {
    pub cell_coordinate: CellCoordinate,
    pub value: u8,
}

/// Outcome of a structurally valid board move: accepted, or rejected with
/// the deduplicated set of every cell that conflicts with the move under the
/// sub-grid, row, or column uniqueness constraint.
#[derive(Debug, PartialEq, Eq)]
pub enum SudokuMoveResult {
    Accepted,
    Rejected(Vec<CellCoordinate>),
}

/// The full 9x9 Sudoku board: a fixed-domain mapping from sub-grid address
/// to sub-grid. The nine sub-grids are created once and only their cell
/// values ever change.
pub struct SudokuBoard {
    sub_grids: Vec<SubGrid>,
}

impl View for SudokuBoard {
    type V = Seq<SubGrid>;

    closed spec fn view(&self) -> Seq<SubGrid> {
        self.sub_grids@
    }
}

/// Every cell of `after` holds the same value as in `before`.
pub open spec fn cells_unchanged(before: SudokuBoard, after: SudokuBoard) -> bool {
    forall|c: CellCoordinate| after.cell_value(c) == before.cell_value(c)
}

/// `after` is `before` with exactly the cell `c` set to `value`.
pub open spec fn cell_updated(
    before: SudokuBoard,
    after: SudokuBoard,
    c: CellCoordinate,
    value: u8,
) -> bool {
    &&& after.cell_value(c) == Some(value)
    &&& forall|d: CellCoordinate| d != c ==> after.cell_value(d) == before.cell_value(d)
}

/// `r` reports the global-row conflicts of `m` on `b` faithfully: `None`
/// when no cell of the move's global row is in conflict — fewer than two of
/// them carry the played digit — otherwise the non-empty list of exactly the
/// conflicting cells, each listed once.
pub open spec fn row_result_matches(
    b: SudokuBoard,
    m: SudokuMove,
    r: Option<Vec<CellCoordinate>>,
) -> bool {
    match r {
        None => forall|c: CellCoordinate| !b.row_conflict(m, c),
        Some(v) => {
            &&& v@.no_duplicates()
            &&& v@.len() > 0
            &&& forall|c: CellCoordinate| v@.contains(c) <==> b.row_conflict(m, c)
        },
    }
}

/// `r` reports the global-column conflicts of `m` on `b` faithfully, in the
/// same shape as `row_result_matches`.
pub open spec fn column_result_matches(
    b: SudokuBoard,
    m: SudokuMove,
    r: Option<Vec<CellCoordinate>>,
) -> bool {
    match r {
        None => forall|c: CellCoordinate| !b.column_conflict(m, c),
        Some(v) => {
            &&& v@.no_duplicates()
            &&& v@.len() > 0
            &&& forall|c: CellCoordinate| v@.contains(c) <==> b.column_conflict(m, c)
        },
    }
}

/// `res` reports the post-move conflicts of `m` on `b` faithfully: accepted
/// exactly when no cell conflicts with the move, otherwise rejected with the
/// deduplicated union of the sub-grid, row, and column conflict sets.
pub open spec fn move_result_matches(b: SudokuBoard, m: SudokuMove, res: SudokuMoveResult) -> bool {
    match res {
        SudokuMoveResult::Accepted => forall|c: CellCoordinate| !b.conflict(m, c),
        SudokuMoveResult::Rejected(v) => {
            &&& v@.no_duplicates()
            &&& v@.len() > 0
            &&& forall|c: CellCoordinate| v@.contains(c) <==> b.conflict(m, c)
        },
    }
}

/// Rank of a cell of a fixed global row in the scan order of
/// `get_row_duplicates`: sub-grid column first, then local column.
spec fn row_scan_key(c: CellCoordinate) -> int {
    c.sub_grid.column.index_spec() * 3 + c.cell.column.index_spec()
}

/// Rank of a cell of a fixed global column in the scan order of
/// `get_column_duplicates`: sub-grid row first, then local row.
spec fn column_scan_key(c: CellCoordinate) -> int {
    c.sub_grid.row.index_spec() * 3 + c.cell.row.index_spec()
}

proof fn lemma_push_contains<T>(s: Seq<T>, x: T)
    ensures
        forall|y: T| s.push(x).contains(y) <==> (s.contains(y) || y == x),
{
    assert forall|y: T| s.push(x).contains(y) <==> (s.contains(y) || y == x) by {
        if s.push(x).contains(y) {
            let i = choose|i: int| 0 <= i < s.push(x).len() && s.push(x)[i] == y;
            if i < s.len() {
                assert(s[i] == y);
            }
        }
        if s.contains(y) {
            let i = choose|i: int| 0 <= i < s.len() && s[i] == y;
            assert(s.push(x)[i] == y);
        }
        assert(s.push(x)[s.len() as int] == x);
    }
}

proof fn lemma_subrange_step<T>(s: Seq<T>, j: int)
    requires
        0 <= j < s.len(),
    ensures
        s.subrange(0, j + 1) == s.subrange(0, j).push(s[j]),
{
    assert(s.subrange(0, j + 1) =~= s.subrange(0, j).push(s[j]));
}

/// Whether `v` already lists the coordinate `c`.
fn contains_coord(v: &Vec<CellCoordinate>, c: CellCoordinate) -> (r: bool)
    ensures
        r == v@.contains(c),
{
    let mut j: usize = 0;
    while j < v.len()
        invariant
            j <= v@.len(),
            forall|k: int| 0 <= k < j ==> v@[k] != c,
        decreases v@.len() - j,
    {
        if v[j] == c {
            return true;
        }
        j = j + 1;
    }
    false
}

/// Extends `acc` with every coordinate of `extra` that it does not already
/// list, returning a list free of repetition.
fn merge_coords(acc: Vec<CellCoordinate>, extra: &Vec<CellCoordinate>) -> (merged: Vec<
    CellCoordinate,
>)
    requires
        acc@.no_duplicates(),
    ensures
        merged@.no_duplicates(),
        forall|x: CellCoordinate| merged@.contains(x) <==> (acc@.contains(x) || extra@.contains(x)),
{
    let ghost acc0 = acc@;
    let mut merged = acc;
    let mut j: usize = 0;
    while j < extra.len()
        invariant
            j <= extra@.len(),
            merged@.no_duplicates(),
            forall|x: CellCoordinate|
                #![trigger merged@.contains(x)]
                #![trigger acc0.contains(x)]
                merged@.contains(x) <==> (acc0.contains(x) || extra@.subrange(
                    0,
                    j as int,
                ).contains(x)),
        decreases extra@.len() - j,
    {
        let c = extra[j];
        let ghost old_merged = merged@;
        proof {
            lemma_subrange_step(extra@, j as int);
            lemma_push_contains(extra@.subrange(0, j as int), extra@[j as int]);
        }
        if !contains_coord(&merged, c) {
            merged.push(c);
            proof {
                lemma_push_contains(old_merged, c);
                assert forall|j1: int, j2: int|
                    0 <= j1 < j2 < merged@.len() implies merged@[j1] != merged@[j2] by {
                    if j2 == merged@.len() - 1 {
                        assert(old_merged[j1] == merged@[j1]);
                        assert(old_merged.contains(old_merged[j1]));
                    }
                }
            }
        }
        proof {
            assert forall|x: CellCoordinate|
                #![trigger merged@.contains(x)]
                #![trigger acc0.contains(x)]
                merged@.contains(x) <==> (acc0.contains(x) || extra@.subrange(
                    0,
                    j as int + 1,
                ).contains(x)) by {
                assert(extra@.subrange(0, j as int + 1).contains(x) <==> (extra@.subrange(
                    0,
                    j as int,
                ).contains(x) || x == extra@[j as int]));
                assert(old_merged.contains(x) <==> (acc0.contains(x) || extra@.subrange(
                    0,
                    j as int,
                ).contains(x)));
            }
        }
        j = j + 1;
    }
    proof {
        assert(extra@.subrange(0, extra@.len() as int) =~= extra@);
    }
    merged
}

/// Propagates a single sub-grid cell update to the board level: exactly the
/// cell `c` changed, and the board stays well-formed.
proof fn lemma_board_update(before: SudokuBoard, after: SudokuBoard, c: CellCoordinate, value: u8)
    requires
        before.wf(),
        after@.len() == 9,
        after@[c.sub_grid.index_spec()]@ == before@[c.sub_grid.index_spec()]@.update(
            c.cell.index_spec(),
            Some(value),
        ),
        forall|k: int| 0 <= k < 9 && k != c.sub_grid.index_spec() ==> after@[k] == before@[k],
    ensures
        after.wf(),
        cell_updated(before, after, c, value),
{
    lemma_position_index_range(c.sub_grid);
    lemma_position_index_range(c.cell);
    assert forall|k: int| 0 <= k < 9 implies (#[trigger] after@[k]).wf() by {
        if k != c.sub_grid.index_spec() {
            assert(after@[k] == before@[k]);
        }
    }
    assert(after.cell_value(c) == Some(value));
    assert forall|d: CellCoordinate| d != c implies after.cell_value(d) == before.cell_value(d) by {
        lemma_position_index_range(d.sub_grid);
        lemma_position_index_range(d.cell);
        if d.sub_grid.index_spec() == c.sub_grid.index_spec() {
            lemma_position_index_injective(d.sub_grid, c.sub_grid);
            lemma_position_index_injective(d.cell, c.cell);
        }
    }
}

impl SudokuBoard {
    /// The fixed nine-sub-grid domain, each sub-grid with its fixed
    /// nine-cell domain.
    pub open spec fn wf(self) -> bool {
        &&& self@.len() == 9
        &&& forall|k: int| 0 <= k < 9 ==> (#[trigger] self@[k]).wf()
    }

    /// The sub-grid at address `p`.
    pub open spec fn block_at(self, p: PositionId) -> SubGrid {
        self@[p.index_spec()]
    }

    /// The digit stored at cell `c`, or `None` for an empty cell.
    pub open spec fn cell_value(self, c: CellCoordinate) -> Option<u8> {
        self.block_at(c.sub_grid).value_at(c.cell)
    }

    /// Cell `c` conflicts with `m` inside the move's own sub-grid: it lies
    /// in that sub-grid and belongs to one of its duplicate groups.
    pub open spec fn block_conflict(self, m: SudokuMove, c: CellCoordinate) -> bool {
        &&& c.sub_grid == m.cell_coordinate.sub_grid
        &&& self.block_at(c.sub_grid).dup_at(c.cell)
    }

    /// Cell `c` lies in the move's global row and carries the played digit.
    /// One such cell alone violates nothing: see `row_conflict`.
    pub open spec fn row_match(self, m: SudokuMove, c: CellCoordinate) -> bool {
        &&& c.sub_grid.row == m.cell_coordinate.sub_grid.row
        &&& c.cell.row == m.cell_coordinate.cell.row
        &&& self.cell_value(c) == Some(m.value)
    }

    /// Cell `c` conflicts with `m` along the move's global row: it carries
    /// the played digit in the move's global row, and so does at least one
    /// other cell of that row — the digit is duplicated, not merely present.
    pub open spec fn row_conflict(self, m: SudokuMove, c: CellCoordinate) -> bool {
        &&& self.row_match(m, c)
        &&& exists|d: CellCoordinate| d != c && #[trigger] self.row_match(m, d)
    }

    /// Cell `c` lies in the move's global column and carries the played
    /// digit. One such cell alone violates nothing: see `column_conflict`.
    pub open spec fn column_match(self, m: SudokuMove, c: CellCoordinate) -> bool {
        &&& c.sub_grid.column == m.cell_coordinate.sub_grid.column
        &&& c.cell.column == m.cell_coordinate.cell.column
        &&& self.cell_value(c) == Some(m.value)
    }

    /// Cell `c` conflicts with `m` along the move's global column, in the
    /// same duplicated sense as `row_conflict`.
    pub open spec fn column_conflict(self, m: SudokuMove, c: CellCoordinate) -> bool {
        &&& self.column_match(m, c)
        &&& exists|d: CellCoordinate| d != c && #[trigger] self.column_match(m, d)
    }

    /// Cell `c` conflicts with `m` under any of the three uniqueness
    /// constraints.
    pub open spec fn conflict(self, m: SudokuMove, c: CellCoordinate) -> bool {
        self.block_conflict(m, c) || self.row_conflict(m, c) || self.column_conflict(m, c)
    }

    /// A fresh board with all 81 cells empty.
    pub fn new() -> (b: SudokuBoard)
        ensures
            b.wf(),
            forall|c: CellCoordinate| b.cell_value(c) is None,
    {
        let mut sub_grids: Vec<SubGrid> = Vec::new();
        let mut i: usize = 0;
        while i < 9
            invariant
                i <= 9,
                sub_grids@.len() == i,
                forall|k: int| 0 <= k < i ==> (#[trigger] sub_grids@[k]).wf(),
                forall|k: int, p: PositionId|
                    #![trigger sub_grids@[k].value_at(p)]
                    0 <= k < i ==> sub_grids@[k].value_at(p) is None,
            decreases 9 - i,
        {
            sub_grids.push(SubGrid::new());
            i = i + 1;
        }
        let b = SudokuBoard { sub_grids };
        proof {
            assert forall|c: CellCoordinate| b.cell_value(c) is None by {
                lemma_position_index_range(c.sub_grid);
            }
        }
        b
    }

    /// Stores `value` at the addressed cell if it is a representable digit
    /// (`0..=9`); otherwise refuses the write, leaves every cell unchanged,
    /// and propagates the sub-grid's failure.
    pub fn update_value(&mut self, cell_coordinate: CellCoordinate, value: u8) -> (r: Result<
        (),
        MoveError,
    >)
        requires
            old(self).wf(),
        ensures
            final(self).wf(),
            value <= 9 ==> r is Ok && cell_updated(
                *old(self),
                *final(self),
                cell_coordinate,
                value,
            ),
            value > 9 ==> r == Result::<(), MoveError>::Err(MoveError::InvalidValue)
                && cells_unchanged(*old(self), *final(self)),
    {
        let gi = cell_coordinate.sub_grid.index();
        let res = self.sub_grids[gi].update_value(cell_coordinate.cell, value);
        proof {
            if value <= 9 {
                lemma_board_update(*old(self), *self, cell_coordinate, value);
            } else {
                assert forall|c: CellCoordinate| self.cell_value(c) == old(self).cell_value(
                    c,
                ) by {
                    lemma_position_index_range(c.sub_grid);
                }
                assert forall|k: int| 0 <= k < 9 implies (#[trigger] self@[k]).wf() by {
                    if k != cell_coordinate.sub_grid.index_spec() {
                        assert(self@[k] == old(self)@[k]);
                    }
                }
            }
        }
        res
    }

    /// The digit stored at the addressed cell, or `None` for an empty cell.
    pub fn get_value(&self, cell_coordinate: CellCoordinate) -> (r: Option<u8>)
        requires
            self.wf(),
        ensures
            r == self.cell_value(cell_coordinate),
    {
        let gi = cell_coordinate.sub_grid.index();
        self.sub_grids[gi].get_value(cell_coordinate.cell)
    }

    /// Every cell of the move's global row that carries the played digit,
    /// when at least two of them do — a lone occurrence violates nothing —
    /// or `None` otherwise. The global row is assembled from the three
    /// sub-grids sharing the move's sub-grid row band, taking in each the
    /// three cells sharing the move's local row band.
    pub fn get_row_duplicates(&self, sudoku_move: &SudokuMove) -> (r: Option<Vec<CellCoordinate>>)
        requires
            self.wf(),
        ensures
            row_result_matches(*self, *sudoku_move, r),
    {
        let mut found: Vec<CellCoordinate> = Vec::new();
        let mut k: usize = 0;
        while k < 9
            invariant
                self.wf(),
                k <= 9,
                found@.no_duplicates(),
                forall|c: CellCoordinate|
                    found@.contains(c) <==> (self.row_match(*sudoku_move, c) && row_scan_key(c)
                        < k),
            decreases 9 - k,
        {
            let gcol = Column::from_index(k / 3);
            let ccol = Column::from_index(k % 3);
            let sub_grid_pos = PositionId {
                row: sudoku_move.cell_coordinate.sub_grid.row,
                column: gcol,
            };
            let cell_pos = PositionId { row: sudoku_move.cell_coordinate.cell.row, column: ccol };
            let here = CellCoordinate { sub_grid: sub_grid_pos, cell: cell_pos };
            let gi = sub_grid_pos.index();
            let value = self.sub_grids[gi].get_value(cell_pos);
            let ghost old_found = found@;
            let matches_digit = match value {
                Some(x) => x == sudoku_move.value,
                None => false,
            };
            if matches_digit {
                found.push(here);
            }
            proof {
                assert(row_scan_key(here) == k);
                assert(self.cell_value(here) == value);
                if matches_digit {
                    assert(self.row_match(*sudoku_move, here));
                    lemma_push_contains(old_found, here);
                    assert(!old_found.contains(here));
                    assert forall|j1: int, j2: int|
                        0 <= j1 < j2 < found@.len() implies found@[j1] != found@[j2] by {
                        if j2 == found@.len() - 1 {
                            assert(old_found[j1] == found@[j1]);
                            assert(old_found.contains(old_found[j1]));
                        }
                    }
                } else {
                    assert(!self.row_match(*sudoku_move, here));
                }
                assert forall|c: CellCoordinate|
                    found@.contains(c) <==> (self.row_match(*sudoku_move, c) && row_scan_key(c)
                        < k + 1) by {
                    assert(old_found.contains(c) <==> (self.row_match(*sudoku_move, c)
                        && row_scan_key(c) < k));
                    if matches_digit {
                        assert(found@.contains(c) <==> (old_found.contains(c) || c == here));
                    } else {
                        assert(found@ == old_found);
                    }
                    if self.row_match(*sudoku_move, c) && row_scan_key(c) == k {
                        lemma_position_index_range(c.sub_grid);
                        lemma_position_index_range(c.cell);
                        assert(c.sub_grid.column.index_spec() == k / 3);
                        assert(c.cell.column.index_spec() == k % 3);
                        lemma_position_index_injective(c.sub_grid, sub_grid_pos);
                        lemma_position_index_injective(c.cell, cell_pos);
                        assert(c == here);
                    }
                }
            }
            k = k + 1;
        }
        proof {
            assert forall|c: CellCoordinate|
                found@.contains(c) <==> self.row_match(*sudoku_move, c) by {
                if self.row_match(*sudoku_move, c) {
                    assert(row_scan_key(c) < 9);
                }
            }
        }
        if found.len() > 1 {
            proof {
                assert forall|c: CellCoordinate|
                    found@.contains(c) <==> self.row_conflict(*sudoku_move, c) by {
                    if found@.contains(c) {
                        if found@[0] == c {
                            assert(found@.contains(found@[1]));
                            assert(found@[1] != c);
                            assert(self.row_match(*sudoku_move, found@[1]));
                        } else {
                            assert(found@.contains(found@[0]));
                            assert(self.row_match(*sudoku_move, found@[0]));
                        }
                    }
                }
            }
            Some(found)
        } else {
            proof {
                assert forall|c: CellCoordinate| !self.row_conflict(*sudoku_move, c) by {
                    if self.row_conflict(*sudoku_move, c) {
                        let d = choose|d: CellCoordinate|
                            d != c && #[trigger] self.row_match(*sudoku_move, d);
                        assert(found@.contains(c));
                        assert(found@.contains(d));
                        let ic = found@.index_of(c);
                        let id = found@.index_of(d);
                        assert(found@[ic] == c && found@[id] == d);
                        assert(ic == 0 && id == 0);
                        assert(false);
                    }
                }
            }
            None
        }
    }

    /// Every cell of the move's global column that carries the played
    /// digit, when at least two of them do, or `None` otherwise. Symmetric
    /// to `get_row_duplicates` with the row and column roles swapped.
    pub fn get_column_duplicates(&self, sudoku_move: &SudokuMove) -> (r: Option<
        Vec<CellCoordinate>,
    >)
        requires
            self.wf(),
        ensures
            column_result_matches(*self, *sudoku_move, r),
    {
        let mut found: Vec<CellCoordinate> = Vec::new();
        let mut k: usize = 0;
        while k < 9
            invariant
                self.wf(),
                k <= 9,
                found@.no_duplicates(),
                forall|c: CellCoordinate|
                    found@.contains(c) <==> (self.column_match(*sudoku_move, c)
                        && column_scan_key(c) < k),
            decreases 9 - k,
        {
            let grow = Row::from_index(k / 3);
            let crow = Row::from_index(k % 3);
            let sub_grid_pos = PositionId {
                row: grow,
                column: sudoku_move.cell_coordinate.sub_grid.column,
            };
            let cell_pos = PositionId {
                row: crow,
                column: sudoku_move.cell_coordinate.cell.column,
            };
            let here = CellCoordinate { sub_grid: sub_grid_pos, cell: cell_pos };
            let gi = sub_grid_pos.index();
            let value = self.sub_grids[gi].get_value(cell_pos);
            let ghost old_found = found@;
            let matches_digit = match value {
                Some(x) => x == sudoku_move.value,
                None => false,
            };
            if matches_digit {
                found.push(here);
            }
            proof {
                assert(column_scan_key(here) == k);
                assert(self.cell_value(here) == value);
                if matches_digit {
                    assert(self.column_match(*sudoku_move, here));
                    lemma_push_contains(old_found, here);
                    assert(!old_found.contains(here));
                    assert forall|j1: int, j2: int|
                        0 <= j1 < j2 < found@.len() implies found@[j1] != found@[j2] by {
                        if j2 == found@.len() - 1 {
                            assert(old_found[j1] == found@[j1]);
                            assert(old_found.contains(old_found[j1]));
                        }
                    }
                } else {
                    assert(!self.column_match(*sudoku_move, here));
                }
                assert forall|c: CellCoordinate|
                    found@.contains(c) <==> (self.column_match(*sudoku_move, c)
                        && column_scan_key(c) < k + 1) by {
                    assert(old_found.contains(c) <==> (self.column_match(*sudoku_move, c)
                        && column_scan_key(c) < k));
                    if matches_digit {
                        assert(found@.contains(c) <==> (old_found.contains(c) || c == here));
                    } else {
                        assert(found@ == old_found);
                    }
                    if self.column_match(*sudoku_move, c) && column_scan_key(c) == k {
                        lemma_position_index_range(c.sub_grid);
                        lemma_position_index_range(c.cell);
                        assert(c.sub_grid.row.index_spec() == k / 3);
                        assert(c.cell.row.index_spec() == k % 3);
                        lemma_position_index_injective(c.sub_grid, sub_grid_pos);
                        lemma_position_index_injective(c.cell, cell_pos);
                        assert(c == here);
                    }
                }
            }
            k = k + 1;
        }
        proof {
            assert forall|c: CellCoordinate|
                found@.contains(c) <==> self.column_match(*sudoku_move, c) by {
                if self.column_match(*sudoku_move, c) {
                    assert(column_scan_key(c) < 9);
                }
            }
        }
        if found.len() > 1 {
            proof {
                assert forall|c: CellCoordinate|
                    found@.contains(c) <==> self.column_conflict(*sudoku_move, c) by {
                    if found@.contains(c) {
                        if found@[0] == c {
                            assert(found@.contains(found@[1]));
                            assert(found@[1] != c);
                            assert(self.column_match(*sudoku_move, found@[1]));
                        } else {
                            assert(found@.contains(found@[0]));
                            assert(self.column_match(*sudoku_move, found@[0]));
                        }
                    }
                }
            }
            Some(found)
        } else {
            proof {
                assert forall|c: CellCoordinate| !self.column_conflict(*sudoku_move, c) by {
                    if self.column_conflict(*sudoku_move, c) {
                        let d = choose|d: CellCoordinate|
                            d != c && #[trigger] self.column_match(*sudoku_move, d);
                        assert(found@.contains(c));
                        assert(found@.contains(d));
                        let ic = found@.index_of(c);
                        let id = found@.index_of(d);
                        assert(found@[ic] == c && found@[id] == d);
                        assert(ic == 0 && id == 0);
                        assert(false);
                    }
                }
            }
            None
        }
    }

    /// Applies the move to the addressed sub-grid, then reports the
    /// deduplicated union of the sub-grid, row, and column conflict sets of
    /// the now-updated state. The digit stays on the board even when the
    /// move is rejected; an out-of-range digit is refused and nothing is
    /// written.
    #[verifier::rlimit(60)]
    pub fn make_move(&mut self, sudoku_move: &SudokuMove) -> (r: Result<
        SudokuMoveResult,
        MoveError,
    >)
        requires
            old(self).wf(),
        ensures
            final(self).wf(),
            sudoku_move.value > 9 ==> r == Result::<SudokuMoveResult, MoveError>::Err(
                MoveError::InvalidValue,
            ) && cells_unchanged(*old(self), *final(self)),
            sudoku_move.value <= 9 ==> {
                &&& r is Ok
                &&& cell_updated(
                    *old(self),
                    *final(self),
                    sudoku_move.cell_coordinate,
                    sudoku_move.value,
                )
                &&& move_result_matches(*final(self), *sudoku_move, r->Ok_0)
            },
    {
        let coord = sudoku_move.cell_coordinate;
        let gi = coord.sub_grid.index();
        let block_res = self.sub_grids[gi].make_move(
            SubGridMove { cell: coord.cell, value: sudoku_move.value },
        );
        match block_res {
            Err(e) => {
                proof {
                    assert forall|c: CellCoordinate| self.cell_value(c) == old(self).cell_value(
                        c,
                    ) by {
                        lemma_position_index_range(c.sub_grid);
                    }
                    assert forall|k: int| 0 <= k < 9 implies (#[trigger] self@[k]).wf() by {
                        if k != coord.sub_grid.index_spec() {
                            assert(self@[k] == old(self)@[k]);
                        }
                    }
                }
                Err(e)
            },
            Ok(sub_res) => {
                proof {
                    lemma_board_update(*old(self), *self, coord, sudoku_move.value);
                }
                let block_conflicts = self.collect_block_conflicts(sudoku_move, sub_res);
                let conflicts = self.gather_conflicts(sudoku_move, block_conflicts);
                if conflicts.len() > 0 {
                    Ok(SudokuMoveResult::Rejected(conflicts))
                } else {
                    Ok(SudokuMoveResult::Accepted)
                }
            },
        }
    }

    /// Translates the sub-grid's own duplicate report into full cell
    /// coordinates within the move's sub-grid.
    fn collect_block_conflicts(
        &self,
        sudoku_move: &SudokuMove,
        sub_res: SubgridMoveResult,
    ) -> (v: Vec<CellCoordinate>)
        requires
            self.wf(),
            crate::subgrid::subgrid_result_matches(
                self.block_at(sudoku_move.cell_coordinate.sub_grid),
                sub_res,
            ),
        ensures
            v@.no_duplicates(),
            forall|c: CellCoordinate| v@.contains(c) <==> self.block_conflict(*sudoku_move, c),
    {
        let ghost coord = sudoku_move.cell_coordinate;
        let mut conflicts: Vec<CellCoordinate> = Vec::new();
        match sub_res {
            SubgridMoveResult::Accepted => {
                proof {
                    assert forall|c: CellCoordinate|
                        conflicts@.contains(c) <==> self.block_conflict(*sudoku_move, c) by {}
                }
            },
            SubgridMoveResult::Rejected(cells) => {
                let sub_grid_pos = sudoku_move.cell_coordinate.sub_grid;
                let mut j: usize = 0;
                while j < cells.len()
                    invariant
                        j <= cells@.len(),
                        conflicts@.len() == j,
                        forall|jj: int|
                            0 <= jj < j ==> #[trigger] conflicts@[jj] == (CellCoordinate {
                                sub_grid: sub_grid_pos,
                                cell: cells@[jj],
                            }),
                    decreases cells@.len() - j,
                {
                    let local = cells[j];
                    conflicts.push(CellCoordinate { sub_grid: sub_grid_pos, cell: local });
                    j = j + 1;
                }
                proof {
                    assert forall|c: CellCoordinate|
                        conflicts@.contains(c) <==> (c.sub_grid == coord.sub_grid
                            && cells@.contains(c.cell)) by {
                        if conflicts@.contains(c) {
                            let jj = conflicts@.index_of(c);
                            assert(cells@.contains(cells@[jj]));
                        }
                        if c.sub_grid == coord.sub_grid && cells@.contains(c.cell) {
                            let jj = cells@.index_of(c.cell);
                            assert(conflicts@[jj] == c);
                        }
                    }
                    assert forall|j1: int, j2: int|
                        0 <= j1 < j2 < conflicts@.len() implies conflicts@[j1]
                        != conflicts@[j2] by {
                        assert(cells@[j1] != cells@[j2]);
                    }
                }
            },
        }
        conflicts
    }

    /// Unions the sub-grid conflict set with the row and column conflict
    /// sets of the move, without repetition.
    fn gather_conflicts(
        &self,
        sudoku_move: &SudokuMove,
        block_conflicts: Vec<CellCoordinate>,
    ) -> (v: Vec<CellCoordinate>)
        requires
            self.wf(),
            block_conflicts@.no_duplicates(),
            forall|c: CellCoordinate|
                block_conflicts@.contains(c) <==> self.block_conflict(*sudoku_move, c),
        ensures
            v@.no_duplicates(),
            forall|c: CellCoordinate| v@.contains(c) <==> self.conflict(*sudoku_move, c),
    {
        let mut conflicts = block_conflicts;

        let ghost before_row = conflicts@;
        let row_dups = self.get_row_duplicates(sudoku_move);
        match row_dups {
            Some(rd) => {
                conflicts = merge_coords(conflicts, &rd);
                proof {
                    assert forall|c: CellCoordinate|
                        conflicts@.contains(c) <==> (self.block_conflict(*sudoku_move, c)
                            || self.row_conflict(*sudoku_move, c)) by {
                        assert(conflicts@.contains(c) <==> (before_row.contains(c)
                            || rd@.contains(c)));
                        assert(before_row.contains(c) <==> self.block_conflict(
                            *sudoku_move,
                            c,
                        ));
                        assert(rd@.contains(c) <==> self.row_conflict(*sudoku_move, c));
                    }
                }
            },
            None => {
                proof {
                    assert forall|c: CellCoordinate|
                        conflicts@.contains(c) <==> (self.block_conflict(*sudoku_move, c)
                            || self.row_conflict(*sudoku_move, c)) by {
                        assert(!self.row_conflict(*sudoku_move, c));
                    }
                }
            },
        }
        assert(conflicts@.no_duplicates());
        assert(forall|c: CellCoordinate|
            conflicts@.contains(c) <==> (self.block_conflict(*sudoku_move, c)
                || self.row_conflict(*sudoku_move, c)));

        let ghost before_col = conflicts@;
        let col_dups = self.get_column_duplicates(sudoku_move);
        match col_dups {
            Some(cd) => {
                conflicts = merge_coords(conflicts, &cd);
                proof {
                    assert forall|c: CellCoordinate|
                        conflicts@.contains(c) <==> self.conflict(*sudoku_move, c) by {
                        assert(conflicts@.contains(c) <==> (before_col.contains(c)
                            || cd@.contains(c)));
                        assert(before_col.contains(c) <==> (self.block_conflict(
                            *sudoku_move,
                            c,
                        ) || self.row_conflict(*sudoku_move, c)));
                        assert(cd@.contains(c) <==> self.column_conflict(*sudoku_move, c));
                    }
                }
            },
            None => {
                proof {
                    assert forall|c: CellCoordinate|
                        conflicts@.contains(c) <==> self.conflict(*sudoku_move, c) by {
                        assert(!self.column_conflict(*sudoku_move, c));
                    }
                }
            },
        }
        assert(conflicts@.no_duplicates());
        assert(forall|c: CellCoordinate|
            conflicts@.contains(c) <==> self.conflict(*sudoku_move, c));

        conflicts
    }
}

/// Write/read round trip: once a structurally valid move has been applied,
/// the played cell holds the played digit — whether the move was accepted or
/// rejected, since a move is written before its conflicts are computed.
pub proof fn lemma_write_read_round_trip(before: SudokuBoard, after: SudokuBoard, m: SudokuMove)
    requires
        cell_updated(before, after, m.cell_coordinate, m.value),
    ensures
        after.cell_value(m.cell_coordinate) == Some(m.value),
{
}

/// Row-conflict detection is a pure function of the board state: two results
/// of the row query for the same move on the same state name the same set of
/// cells.
pub proof fn lemma_row_duplicates_idempotent(
    b: SudokuBoard,
    m: SudokuMove,
    r1: Option<Vec<CellCoordinate>>,
    r2: Option<Vec<CellCoordinate>>,
)
    requires
        row_result_matches(b, m, r1),
        row_result_matches(b, m, r2),
    ensures
        r1 is Some <==> r2 is Some,
        r1 is Some && r2 is Some ==> r1->0@.to_set() == r2->0@.to_set(),
{
    broadcast use vstd::set::group_set_axioms;

    if r1 is Some && r2 is None {
        assert(r1->0@.contains(r1->0@[0]));
        assert(b.row_conflict(m, r1->0@[0]));
    }
    if r1 is None && r2 is Some {
        assert(r2->0@.contains(r2->0@[0]));
        assert(b.row_conflict(m, r2->0@[0]));
    }
    if r1 is Some && r2 is Some {
        assert forall|c: CellCoordinate|
            r1->0@.to_set().contains(c) <==> r2->0@.to_set().contains(c) by {
            assert(r1->0@.to_set().contains(c) == r1->0@.contains(c));
            assert(r2->0@.to_set().contains(c) == r2->0@.contains(c));
            assert(r1->0@.contains(c) <==> b.row_conflict(m, c));
            assert(r2->0@.contains(c) <==> b.row_conflict(m, c));
        }
        assert(r1->0@.to_set() =~= r2->0@.to_set());
    }
}

/// Column-conflict detection is a pure function of the board state, in the
/// same sense as `lemma_row_duplicates_idempotent`.
pub proof fn lemma_column_duplicates_idempotent(
    b: SudokuBoard,
    m: SudokuMove,
    r1: Option<Vec<CellCoordinate>>,
    r2: Option<Vec<CellCoordinate>>,
)
    requires
        column_result_matches(b, m, r1),
        column_result_matches(b, m, r2),
    ensures
        r1 is Some <==> r2 is Some,
        r1 is Some && r2 is Some ==> r1->0@.to_set() == r2->0@.to_set(),
{
    broadcast use vstd::set::group_set_axioms;

    if r1 is Some && r2 is None {
        assert(r1->0@.contains(r1->0@[0]));
        assert(b.column_conflict(m, r1->0@[0]));
    }
    if r1 is None && r2 is Some {
        assert(r2->0@.contains(r2->0@[0]));
        assert(b.column_conflict(m, r2->0@[0]));
    }
    if r1 is Some && r2 is Some {
        assert forall|c: CellCoordinate|
            r1->0@.to_set().contains(c) <==> r2->0@.to_set().contains(c) by {
            assert(r1->0@.to_set().contains(c) == r1->0@.contains(c));
            assert(r2->0@.to_set().contains(c) == r2->0@.contains(c));
            assert(r1->0@.contains(c) <==> b.column_conflict(m, c));
            assert(r2->0@.contains(c) <==> b.column_conflict(m, c));
        }
        assert(r1->0@.to_set() =~= r2->0@.to_set());
    }
}

} // verus!
