use vstd::prelude::*;

use crate::database::{Database, LevelError};
use crate::grid::{GridMap, GridModel};
use crate::tile::{map_tile, visual_of, TileKind, TileVisual};

verus! {

/// Side of one grid cell in screen units.
pub const TILE_SIZE: u128 = 128;

/// The discrete grid coordinate at which a tile sits.
#[derive(Clone, Copy, Debug, PartialEq, Eq, Structural)]
pub struct GridPosition {
    pub x: usize,
    pub y: usize,
}

impl GridPosition {
    /// The screen position that a tile at this coordinate moves towards:
    /// the coordinate scaled by the cell size.
    pub fn target(self) -> (r: (u128, u128))
        ensures
            r.0 == self.x * TILE_SIZE,
            r.1 == self.y * TILE_SIZE,
    {
        (self.x as u128 * TILE_SIZE, self.y as u128 * TILE_SIZE)
    }
}

/// One tile entity to create: its kind, how it is drawn and where it sits.
#[derive(Clone, Copy, Debug, PartialEq, Eq, Structural)]
pub struct TileSpawn {
    pub kind: TileKind,
    pub visual: TileVisual,
    pub position: GridPosition,
}

/// The spawns for the stack at `(x, y)`, lowest layer first.
pub open spec fn stack_spawns(s: Seq<TileKind>, x: int, y: int) -> Seq<TileSpawn> {
    s.map_values(
        |t: TileKind|
            TileSpawn {
                kind: t,
                visual: visual_of(t),
                position: GridPosition { x: x as usize, y: y as usize },
            },
    )
}

/// The spawns for the first `rows` cells of column `x`, top to bottom.
pub open spec fn column_spawns(m: GridModel, x: int, rows: int) -> Seq<TileSpawn>
    decreases rows,
{
    if rows <= 0 {
        seq![]
    } else {
        column_spawns(m, x, rows - 1) + stack_spawns(m.stack(x, rows - 1), x, rows - 1)
    }
}

/// The spawns for the first `cols` columns, left to right.
pub open spec fn grid_spawns(m: GridModel, cols: int) -> Seq<TileSpawn>
    decreases cols,
{
    if cols <= 0 {
        seq![]
    } else {
        grid_spawns(m, cols - 1) + column_spawns(m, cols - 1, m.height as int)
    }
}

/// Every tile of a map, column by column and, within a cell, from the
/// lowest layer up.
pub open spec fn level_spawns(m: GridModel) -> Seq<TileSpawn> {
    grid_spawns(m, m.width as int)
}

/// The tiles to create for a map.
pub fn map_spawns(level: &GridMap) -> (r: Vec<TileSpawn>)
    ensures
        r@ == level_spawns(level@),
{
    let ghost m = level@;
    let (w, h) = level.dimensions();
    let mut out: Vec<TileSpawn> = Vec::new();
    let mut x: usize = 0;
    while x < w
        invariant
            m == level@,
            w == m.width,
            h == m.height,
            0 <= x <= w,
            out@ == grid_spawns(m, x as int),
        decreases w - x,
    {
        let mut y: usize = 0;
        while y < h
            invariant
                m == level@,
                w == m.width,
                h == m.height,
                0 <= x < w,
                0 <= y <= h,
                out@ == grid_spawns(m, x as int) + column_spawns(m, x as int, y as int),
            decreases h - y,
        {
            let stack = match level.get(x, y) {
                Ok(s) => s,
                Err(_) => {
                    assert(false);
                    return out;
                },
            };
            let ghost start = out@;
            let mut k: usize = 0;
            while k < stack.len()
                invariant
                    0 <= x < w,
                    0 <= y < h,
                    out@ == start + stack_spawns(stack@, x as int, y as int).take(k as int),
                    0 <= k <= stack.len(),
                decreases stack.len() - k,
            {
                let t = stack[k];
                out.push(
                    TileSpawn { kind: t, visual: map_tile(t), position: GridPosition { x, y } },
                );
                assert(stack_spawns(stack@, x as int, y as int).take(k + 1) =~= stack_spawns(
                    stack@,
                    x as int,
                    y as int,
                ).take(k as int).push(out@.last()));
                assert(out@ =~= start + stack_spawns(stack@, x as int, y as int).take(k + 1));
                k += 1;
            }
            assert(stack_spawns(stack@, x as int, y as int).take(k as int) =~= stack_spawns(
                stack@,
                x as int,
                y as int,
            ));
            assert(out@ =~= grid_spawns(m, x as int) + column_spawns(m, x as int, y + 1));
            y += 1;
        }
        assert(out@ =~= grid_spawns(m, x + 1));
        x += 1;
    }
    out
}

/// The tiles to create for the first level of the database, or
/// `EmptyDatabase` when it holds no level.
pub fn spawn_level(database: &Database) -> (r: Result<Vec<TileSpawn>, LevelError>)
    ensures
        r is Err <==> database@.len() == 0,
        r is Err ==> r == Err::<Vec<TileSpawn>, LevelError>(LevelError::EmptyDatabase),
        r is Ok ==> r->Ok_0@ == level_spawns(database@[0]),
{
    match database.first_level() {
        Ok(level) => Ok(map_spawns(level)),
        Err(e) => Err(e),
    }
}

} // verus!
