//! The four line-directions through a cell: its row, its column, and the
//! two diagonals, each identified by the invariant that holds along it.

use vstd::prelude::*;
use crate::mv::FiveInRowMove;

verus! {

#[derive(Debug, Clone, Copy)]
pub enum Direction {
    Row(i32),
    Column(i32),
    Diagonal(i32, i32),
    CrossDiagonal(i32, i32),
}

impl Direction {
    /// Whether the cell `(x, y)` lies on this direction.
    pub open spec fn on_spec(self, x: int, y: int) -> bool {
        match self {
            Direction::Row(py) => py == y,
            Direction::Column(px) => px == x,
            Direction::Diagonal(px, py) => py - px == y - x,
            Direction::CrossDiagonal(px, py) => py + px == y + x,
        }
    }

    /// The four directions a move lies on: its row, its column, and the
    /// two diagonals through it.
    pub open spec fn list_from_spec(mv: FiveInRowMove) -> Seq<Direction> {
        seq![
            Direction::Row(mv.y_spec() as i32),
            Direction::Column(mv.x_spec() as i32),
            Direction::Diagonal(mv.x_spec() as i32, mv.y_spec() as i32),
            Direction::CrossDiagonal(mv.x_spec() as i32, mv.y_spec() as i32),
        ]
    }

    pub fn create_list_from_move(mv: &FiveInRowMove) -> (dirs: [Direction; 4])
        ensures
            dirs@ == Direction::list_from_spec(*mv),
            forall|i: int| 0 <= i < 4 ==> #[trigger] dirs@[i].on_spec(mv.x_spec(), mv.y_spec()),
    {
        let dirs: [Direction; 4] = [
            Direction::Row(mv.get_y()),
            Direction::Column(mv.get_x()),
            Direction::Diagonal(mv.get_x(), mv.get_y()),
            Direction::CrossDiagonal(mv.get_x(), mv.get_y()),
        ];
        proof {
            assert(dirs@ =~= Direction::list_from_spec(*mv));
        }
        dirs
    }

    pub fn is_in_direction(&self, x: i32, y: i32) -> (r: bool)
        ensures
            r == self.on_spec(x as int, y as int),
    {
        match self {
            Direction::Row(py) => *py == y,
            Direction::Column(px) => *px == x,
            Direction::Diagonal(px, py) => (*py as i64) - (*px as i64) == (y as i64) - (x as i64),
            Direction::CrossDiagonal(px, py) => (*py as i64) + (*px as i64) == (y as i64) + (
            x as i64),
        }
    }
}


/// The coordinate that orders moves along a direction: the column index
/// along a row, the row index along every other direction.
pub open spec fn line_pos(m: FiveInRowMove, d: Direction) -> int {
    match d {
        Direction::Row(_) => m.x_spec(),
        _ => m.y_spec(),
    }
}

/// Law: along a fixed direction, the signed line-distance of two of its
/// moves is the difference of their positions along it, so sorting by
/// the distance order is sorting by the integer position; and it is
/// zero exactly for moves at the same cell.
pub proof fn lemma_line_order(d: Direction, a: FiveInRowMove, b: FiveInRowMove)
    requires
        d.on_spec(a.x_spec(), a.y_spec()),
        d.on_spec(b.x_spec(), b.y_spec()),
    ensures
        a.dist_spec(b) == line_pos(a, d) - line_pos(b, d),
        a.dist_spec(b) == 0 <==> a.same_cell(b),
{
}

} // verus!
