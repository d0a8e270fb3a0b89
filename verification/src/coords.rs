//! The two-level coordinate model: three-valued bands along each axis, a
//! position identifier made of one band per axis, and a full cell coordinate
//! made of a sub-grid address and a local address.

use vstd::prelude::*;

verus! {

/// One of the three positions along the vertical axis, in the fixed declared
/// order. Used both to address a sub-grid within the board and to address a
/// cell within a sub-grid.
#[derive(Clone, Copy, Debug, PartialEq, Eq, Hash, Structural)]
pub enum Row {
    Upper,
    Center,
    Bottom,
}

/// One of the three positions along the horizontal axis, in the fixed
/// declared order. Used at the same two nesting levels as `Row`.
#[derive(Clone, Copy, Debug, PartialEq, Eq, Hash, Structural)]
pub enum Column {
    Left,
    Center,
    Right,
}

impl Row {
    /// The rank of this band in the fixed declared order.
    pub open spec fn index_spec(self) -> int {
        match self {
            Row::Upper => 0,
            Row::Center => 1,
            Row::Bottom => 2,
        }
    }

    /// All three row bands, in the fixed declared order.
    pub fn all() -> (r: Vec<Row>)
        ensures
            r@ == seq![Row::Upper, Row::Center, Row::Bottom],
    {
        let r = vec![Row::Upper, Row::Center, Row::Bottom];
        proof {
            assert(r@ =~= seq![Row::Upper, Row::Center, Row::Bottom]);
        }
        r
    }

    /// The rank of this band, as a machine integer.
    pub fn index(self) -> (i: usize)
        ensures
            i == self.index_spec(),
            i < 3,
    {
        match self {
            Row::Upper => 0,
            Row::Center => 1,
            Row::Bottom => 2,
        }
    }

    /// The band of rank `i`.
    pub fn from_index(i: usize) -> (r: Row)
        requires
            i < 3,
        ensures
            r.index_spec() == i,
    {
        if i == 0 {
            Row::Upper
        } else if i == 1 {
            Row::Center
        } else {
            Row::Bottom
        }
    }
}

impl Column {
    /// The rank of this band in the fixed declared order.
    pub open spec fn index_spec(self) -> int {
        match self {
            Column::Left => 0,
            Column::Center => 1,
            Column::Right => 2,
        }
    }

    /// All three column bands, in the fixed declared order.
    pub fn all() -> (r: Vec<Column>)
        ensures
            r@ == seq![Column::Left, Column::Center, Column::Right],
    {
        let r = vec![Column::Left, Column::Center, Column::Right];
        proof {
            assert(r@ =~= seq![Column::Left, Column::Center, Column::Right]);
        }
        r
    }

    /// The rank of this band, as a machine integer.
    pub fn index(self) -> (i: usize)
        ensures
            i == self.index_spec(),
            i < 3,
    {
        match self {
            Column::Left => 0,
            Column::Center => 1,
            Column::Right => 2,
        }
    }

    /// The band of rank `i`.
    pub fn from_index(i: usize) -> (c: Column)
        requires
            i < 3,
        ensures
            c.index_spec() == i,
    {
        if i == 0 {
            Column::Left
        } else if i == 1 {
            Column::Center
        } else {
            Column::Right
        }
    }
}

/// A pair of bands. In the role of a sub-grid address it selects one of the
/// nine sub-grids of the board; in the role of a local address it selects one
/// of the nine cells of a sub-grid.
#[derive(Clone, Copy, Debug, PartialEq, Eq, Hash, Structural)]
pub struct PositionId {
    pub row: Row,
    pub column: Column,
}

impl PositionId {
    /// The rank of this position in row-major order over the nine positions.
    pub open spec fn index_spec(self) -> int {
        self.row.index_spec() * 3 + self.column.index_spec()
    }

    /// The rank of this position, as a machine integer.
    pub fn index(self) -> (i: usize)
        ensures
            i == self.index_spec(),
            i < 9,
    {
        self.row.index() * 3 + self.column.index()
    }

    /// The position of rank `i` in row-major order.
    pub fn from_index(i: usize) -> (p: PositionId)
        requires
            i < 9,
        ensures
            p.index_spec() == i,
    {
        PositionId { row: Row::from_index(i / 3), column: Column::from_index(i % 3) }
    }
}

/// The row-major rank of every position lies below nine.
pub proof fn lemma_position_index_range(p: PositionId)
    ensures
        0 <= p.index_spec() < 9,
{
}

/// Distinct positions have distinct row-major ranks.
pub proof fn lemma_position_index_injective(a: PositionId, b: PositionId)
    ensures
        a.index_spec() == b.index_spec() ==> a == b,
{
}

/// A unique address for one of the 81 cells of the board: the sub-grid that
/// holds the cell, and the cell's local position within that sub-grid.
#[derive(Clone, Copy, Debug, PartialEq, Eq, Hash, Structural)]
pub struct CellCoordinate {
    pub sub_grid: PositionId,
    pub cell: PositionId,
}

} // verus!
