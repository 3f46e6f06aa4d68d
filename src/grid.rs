use vstd::prelude::*;

use crate::tile::TileKind;

verus! {

/// Mathematical model of a grid map: its dimensions and, for every row `y`
/// and column `x`, the stack of tiles at `(x, y)`, lowest layer first.
pub struct GridModel {
    pub width: nat,
    pub height: nat,
    pub cells: Seq<Seq<Seq<TileKind>>>,
}

impl GridModel {
    /// Every in-bounds coordinate has a stack, and no other coordinate has one.
    pub open spec fn well_formed(self) -> bool {
        &&& self.cells.len() == self.height
        &&& forall|y: int| 0 <= y < self.height ==> #[trigger] self.cells[y].len() == self.width
    }

    pub open spec fn in_bounds(self, x: int, y: int) -> bool {
        0 <= x < self.width && 0 <= y < self.height
    }

    /// The tile stack at `(x, y)`.
    pub open spec fn stack(self, x: int, y: int) -> Seq<TileKind> {
        self.cells[y][x]
    }
}

/// Failure of a coordinate query.
#[derive(Clone, Copy, Debug, PartialEq, Eq, Structural)]
pub enum MapError {
    OutOfBounds,
}

/// An immutable rectangular grid of tile stacks.
#[derive(Debug)]
pub struct GridMap {
    width: usize,
    height: usize,
    rows: Vec<Vec<Vec<TileKind>>>,
}

/// The model of a row-major nest of tile stacks.
pub open spec fn rows_model(rows: Seq<Vec<Vec<TileKind>>>) -> Seq<Seq<Seq<TileKind>>> {
    Seq::new(rows.len(), |y: int| Seq::new(rows[y]@.len(), |x: int| rows[y]@[x]@))
}

impl View for GridMap {
    type V = GridModel;

    closed spec fn view(&self) -> GridModel {
        GridModel {
            width: self.width as nat,
            height: self.height as nat,
            cells: rows_model(self.rows@),
        }
    }
}

impl GridMap {
    #[verifier::type_invariant]
    spec fn wf(&self) -> bool {
        &&& self.rows@.len() == self.height
        &&& forall|y: int| 0 <= y < self.height ==> #[trigger] self.rows@[y]@.len() == self.width
    }

    /// Builds a map from its rows; `rows[y][x]` is the stack at `(x, y)`.
    pub(crate) fn from_rows(width: usize, rows: Vec<Vec<Vec<TileKind>>>) -> (r: GridMap)
        requires
            forall|y: int| 0 <= y < rows@.len() ==> #[trigger] rows@[y]@.len() == width,
        ensures
            r@.well_formed(),
            r@.width == width,
            r@.height == rows@.len(),
            r@.cells == rows_model(rows@),
    {
        GridMap { width, height: rows.len(), rows }
    }

    /// A copy of the map.
    pub fn clone_map(&self) -> (r: GridMap)
        ensures
            r@ == self@,
    {
        proof {
            use_type_invariant(self);
        }
        let mut rows: Vec<Vec<Vec<TileKind>>> = Vec::new();
        let mut y: usize = 0;
        while y < self.height
            invariant
                self.wf(),
                0 <= y <= self.height,
                rows@.len() == y,
                forall|j: int| 0 <= j < y ==> #[trigger] rows@[j]@.len() == self.width,
                forall|j: int, i: int|
                    0 <= j < y && 0 <= i < self.width ==> (#[trigger] rows@[j]@[i])@
                        == self.rows@[j]@[i]@,
            decreases self.height - y,
        {
            let mut row: Vec<Vec<TileKind>> = Vec::new();
            let mut x: usize = 0;
            while x < self.width
                invariant
                    self.wf(),
                    0 <= y < self.height,
                    0 <= x <= self.width,
                    row@.len() == x,
                    forall|i: int|
                        0 <= i < x ==> (#[trigger] row@[i])@ == self.rows@[y as int]@[i]@,
                decreases self.width - x,
            {
                let stack = copy_stack(&self.rows[y][x]);
                row.push(stack);
                x += 1;
            }
            rows.push(row);
            y += 1;
        }
        let r = GridMap { width: self.width, height: self.height, rows };
        assert(r@.cells =~= self@.cells) by {
            assert forall|j: int| 0 <= j < self.height implies r@.cells[j] =~= self@.cells[j] by {}
        }
        r
    }

    /// The width and height of the map.
    pub fn dimensions(&self) -> (r: (usize, usize))
        ensures
            r.0 == self@.width,
            r.1 == self@.height,
            self@.well_formed(),
    {
        proof {
            use_type_invariant(self);
        }
        (self.width, self.height)
    }

    /// The tile stack at `(x, y)`, lowest layer first, or `OutOfBounds` when
    /// the coordinate lies outside the map.
    pub fn get(&self, x: usize, y: usize) -> (r: Result<&Vec<TileKind>, MapError>)
        ensures
            self@.in_bounds(x as int, y as int) <==> r.is_ok(),
            r is Err ==> r == Err::<&Vec<TileKind>, MapError>(MapError::OutOfBounds),
            r is Ok ==> r->Ok_0@ == self@.stack(x as int, y as int),
            self@.well_formed(),
    {
        proof {
            use_type_invariant(self);
        }
        if x < self.width && y < self.height {
            Ok(&self.rows[y][x])
        } else {
            Err(MapError::OutOfBounds)
        }
    }
}

fn copy_stack(stack: &Vec<TileKind>) -> (r: Vec<TileKind>)
    ensures
        r@ == stack@,
{
    let mut out: Vec<TileKind> = Vec::new();
    for t in it: stack.iter()
        invariant
            it.seq() == stack@.map_values(|t: TileKind| &t),
            out@ == stack@.take(it.index() as int),
    {
        out.push(*t);
    }
    assert(out@ =~= stack@);
    out
}

/// A query at `(width, 0)`, just past the right edge, lies outside every
/// map, so `get` fails there with `OutOfBounds`.
pub proof fn lemma_past_right_edge_out_of_bounds(m: GridModel)
    ensures
        !m.in_bounds(m.width as int, 0),
{
}

} // verus!
