//! A 3x3 sub-grid: nine cells addressed by local `PositionId`, with
//! block-local duplicate detection and a block-scoped move protocol.

use vstd::prelude::*;

use crate::coords::{lemma_position_index_injective, PositionId};
use crate::duplicates::{duplicate_at, keys_with_duplicate_values};

verus! {

/// Why a write was refused. Conflicts are not errors: a move that creates
/// duplicates is still applied and reported as a normal result. There is no
/// unknown-cell failure: the closed coordinate model makes an out-of-domain
/// address unrepresentable, so the only failure is an out-of-range digit.
#[derive(Clone, Copy, Debug, PartialEq, Eq, Structural)]
pub enum MoveError {
    /// The submitted digit lies outside the representable range `0..=9`.
    InvalidValue,
}

/// A proposed placement of a digit at one cell of a sub-grid.
#[derive(Clone, Copy, Debug, PartialEq, Eq, Structural)]
pub struct SubGridMove {
    pub cell: PositionId,
    pub value: u8,
}

/// Outcome of a structurally valid sub-grid move: accepted, or rejected with
/// every position of the sub-grid that now belongs to a duplicate group.
#[derive(Debug, PartialEq, Eq)]
pub enum SubgridMoveResult {
    Accepted,
    Rejected(Vec<PositionId>),
}

/// One 3x3 unit of nine cells. The nine-slot domain is fixed at construction:
/// slots only ever change value, and a slot is either empty or holds a single
/// digit. The stored digits range over `0..=9`; `0` is stored like any other
/// digit and does not mean "erase".
pub struct SubGrid {
    cells: Vec<Option<u8>>,
}

impl View for SubGrid {
    type V = Seq<Option<u8>>;

    closed spec fn view(&self) -> Seq<Option<u8>> {
        self.cells@
    }
}

/// `r` reports the duplicate groups of `g` faithfully: `None` when no
/// position takes part in a duplicate group, otherwise the non-empty list of
/// exactly those positions, each listed once.
pub open spec fn duplicates_result_matches(g: SubGrid, r: Option<Vec<PositionId>>) -> bool {
    match r {
        None => forall|p: PositionId| !g.dup_at(p),
        Some(v) => {
            &&& v@.no_duplicates()
            &&& v@.len() > 0
            &&& forall|p: PositionId| v@.contains(p) <==> g.dup_at(p)
        },
    }
}

/// `res` reports the post-move duplicate state of `g` faithfully: accepted
/// exactly when `g` has no duplicate group, otherwise rejected with exactly
/// the positions of all duplicate groups.
pub open spec fn subgrid_result_matches(g: SubGrid, res: SubgridMoveResult) -> bool {
    match res {
        SubgridMoveResult::Accepted => forall|p: PositionId| !g.dup_at(p),
        SubgridMoveResult::Rejected(v) => {
            &&& v@.no_duplicates()
            &&& v@.len() > 0
            &&& forall|p: PositionId| v@.contains(p) <==> g.dup_at(p)
        },
    }
}

impl SubGrid {
    /// The fixed nine-slot domain: one slot per local position.
    pub open spec fn wf(self) -> bool {
        self@.len() == 9
    }

    /// The digit stored at local position `p`, or `None` for an empty cell.
    pub open spec fn value_at(self, p: PositionId) -> Option<u8> {
        self@[p.index_spec()]
    }

    /// Local position `p` belongs to a duplicate group of this sub-grid.
    pub open spec fn dup_at(self, p: PositionId) -> bool {
        duplicate_at(self@, p.index_spec())
    }

    /// A fresh sub-grid with all nine cells empty.
    pub fn new() -> (g: SubGrid)
        ensures
            g.wf(),
            forall|p: PositionId| g.value_at(p) is None,
    {
        let mut cells: Vec<Option<u8>> = Vec::new();
        let mut i: usize = 0;
        while i < 9
            invariant
                i <= 9,
                cells@.len() == i,
                forall|j: int| 0 <= j < i ==> cells@[j] is None,
            decreases 9 - i,
        {
            cells.push(None);
            i = i + 1;
        }
        let g = SubGrid { cells };
        proof {
            assert forall|p: PositionId| g.value_at(p) is None by {
                assert(0 <= p.index_spec() < 9);
            }
        }
        g
    }

    /// Stores `value` at `key` if it is a representable digit (`0..=9`);
    /// otherwise refuses the write and leaves the sub-grid unchanged.
    pub fn update_value(&mut self, key: PositionId, value: u8) -> (r: Result<(), MoveError>)
        requires
            old(self).wf(),
        ensures
            final(self).wf(),
            value <= 9 ==> r is Ok && final(self)@ == old(self)@.update(
                key.index_spec(),
                Some(value),
            ),
            value > 9 ==> r == Result::<(), MoveError>::Err(MoveError::InvalidValue)
                && final(self)@ == old(self)@,
    {
        if value < 10 {
            let i = key.index();
            self.cells[i] = Some(value);
            Ok(())
        } else {
            Err(MoveError::InvalidValue)
        }
    }

    /// The digit stored at `key`, or `None` for an empty cell.
    pub fn get_value(&self, key: PositionId) -> (r: Option<u8>)
        requires
            self.wf(),
        ensures
            r == self.value_at(key),
    {
        self.cells[key.index()]
    }

    /// Every position whose digit also fills some other cell of this
    /// sub-grid, or `None` when the nine cells hold no duplicate. Whole
    /// groups are reported: if a digit fills three cells, all three positions
    /// are returned.
    pub fn get_duplicates(&self) -> (r: Option<Vec<PositionId>>)
        requires
            self.wf(),
        ensures
            duplicates_result_matches(*self, r),
    {
        let idxs = keys_with_duplicate_values(&self.cells);
        let mut out: Vec<PositionId> = Vec::new();
        let mut j: usize = 0;
        while j < idxs.len()
            invariant
                self.wf(),
                j <= idxs@.len(),
                crate::duplicates::duplicate_indices_result(self@, idxs@),
                out@.len() == j,
                forall|jj: int| 0 <= jj < j ==> (#[trigger] out@[jj]).index_spec() == idxs@[jj],
            decreases idxs@.len() - j,
        {
            let i = idxs[j];
            proof {
                assert(idxs@.contains(idxs@[j as int]));
            }
            out.push(PositionId::from_index(i));
            j = j + 1;
        }
        proof {
            assert forall|p: PositionId| out@.contains(p) <==> self.dup_at(p) by {
                if out@.contains(p) {
                    let jj = out@.index_of(p);
                    assert(idxs@.contains(idxs@[jj]));
                }
                if self.dup_at(p) {
                    let k = p.index_spec() as usize;
                    assert(idxs@.contains(k));
                    let jj = idxs@.index_of(k);
                    lemma_position_index_injective(out@[jj], p);
                    assert(out@[jj] == p);
                }
            }
            assert forall|j1: int, j2: int|
                0 <= j1 < j2 < out@.len() implies out@[j1] != out@[j2] by {
                assert(idxs@[j1] != idxs@[j2]);
            }
        }
        if out.len() > 0 {
            Some(out)
        } else {
            None
        }
    }

    /// Applies the move to this sub-grid and reports the duplicate state it
    /// left behind. The digit is written before the duplicate check runs, so
    /// a rejected digit stays on the grid; an out-of-range digit is refused
    /// and nothing is written.
    pub fn make_move(&mut self, sub_grid_move: SubGridMove) -> (r: Result<
        SubgridMoveResult,
        MoveError,
    >)
        requires
            old(self).wf(),
        ensures
            final(self).wf(),
            sub_grid_move.value > 9 ==> r == Result::<SubgridMoveResult, MoveError>::Err(
                MoveError::InvalidValue,
            ) && final(self)@ == old(self)@,
            sub_grid_move.value <= 9 ==> {
                &&& r is Ok
                &&& final(self)@ == old(self)@.update(
                    sub_grid_move.cell.index_spec(),
                    Some(sub_grid_move.value),
                )
                &&& subgrid_result_matches(*final(self), r->Ok_0)
            },
    {
        match self.update_value(sub_grid_move.cell, sub_grid_move.value) {
            Ok(_) => match self.get_duplicates() {
                Some(dups) => Ok(SubgridMoveResult::Rejected(dups)),
                None => Ok(SubgridMoveResult::Accepted),
            },
            Err(e) => Err(e),
        }
    }
}

/// Duplicate detection is a pure function of the sub-grid state: two results
/// of the duplicate query on the same state name the same set of positions.
pub proof fn lemma_duplicates_idempotent(
    g: SubGrid,
    r1: Option<Vec<PositionId>>,
    r2: Option<Vec<PositionId>>,
)
    requires
        duplicates_result_matches(g, r1),
        duplicates_result_matches(g, r2),
    ensures
        r1 is Some <==> r2 is Some,
        r1 is Some && r2 is Some ==> r1->0@.to_set() == r2->0@.to_set(),
{
    broadcast use vstd::set::group_set_axioms;

    if r1 is Some && r2 is None {
        assert(r1->0@.contains(r1->0@[0]));
        assert(g.dup_at(r1->0@[0]));
    }
    if r1 is None && r2 is Some {
        assert(r2->0@.contains(r2->0@[0]));
        assert(g.dup_at(r2->0@[0]));
    }
    if r1 is Some && r2 is Some {
        assert forall|p: PositionId| r1->0@.to_set().contains(p) <==> r2->0@.to_set().contains(
            p,
        ) by {
            assert(r1->0@.to_set().contains(p) == r1->0@.contains(p));
            assert(r2->0@.to_set().contains(p) == r2->0@.contains(p));
            assert(r1->0@.contains(p) <==> g.dup_at(p));
            assert(r2->0@.contains(p) <==> g.dup_at(p));
        }
        assert(r1->0@.to_set() =~= r2->0@.to_set());
    }
}

} // verus!
