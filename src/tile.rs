use vstd::prelude::*;

verus! {

/// What occupies one layer of a grid cell.
#[derive(Clone, Copy, Debug, PartialEq, Eq, Structural)]
pub enum TileKind {
    Floor,
    Wall,
    Box,
    Goal,
    Player,
}

/// Draw-order tier of a tile: background (floor, wall), mid-ground (goal),
/// foreground (box, player).
#[derive(Clone, Copy, Debug, PartialEq, Eq, Structural)]
pub enum DepthLayer {
    Background,
    Midground,
    Foreground,
}

/// How a tile is presented: its index in the sprite atlas and its depth layer.
#[derive(Clone, Copy, Debug, PartialEq, Eq, Structural)]
pub struct TileVisual {
    pub atlas_index: usize,
    pub layer: DepthLayer,
}

/// Index of a tile kind's sprite in the tile atlas.
pub open spec fn atlas_index_of(kind: TileKind) -> usize {
    match kind {
        TileKind::Floor => 0,
        TileKind::Box => 1,
        TileKind::Goal => 2,
        TileKind::Wall => 3,
        TileKind::Player => 7,
    }
}

/// Depth layer of a tile kind.
pub open spec fn layer_of(kind: TileKind) -> DepthLayer {
    match kind {
        TileKind::Floor | TileKind::Wall => DepthLayer::Background,
        TileKind::Goal => DepthLayer::Midground,
        TileKind::Box | TileKind::Player => DepthLayer::Foreground,
    }
}

/// Rank of a depth layer: lower ranks are drawn beneath higher ones.
pub open spec fn layer_rank(layer: DepthLayer) -> nat {
    match layer {
        DepthLayer::Background => 0,
        DepthLayer::Midground => 1,
        DepthLayer::Foreground => 2,
    }
}

/// The presentation of a tile kind: its atlas index and depth layer.
pub open spec fn visual_of(kind: TileKind) -> TileVisual {
    TileVisual { atlas_index: atlas_index_of(kind), layer: layer_of(kind) }
}

impl DepthLayer {
    /// The depth (z coordinate) at which tiles of this layer are drawn.
    pub fn depth(self) -> (r: u32)
        ensures
            r == layer_rank(self),
    {
        match self {
            DepthLayer::Background => 0,
            DepthLayer::Midground => 1,
            DepthLayer::Foreground => 2,
        }
    }
}

/// The atlas index and depth layer of a tile kind. Every kind has exactly one
/// mapping; floor and wall lie beneath goals, which lie beneath boxes and the
/// player.
pub fn map_tile(tile: TileKind) -> (r: TileVisual)
    ensures
        r == visual_of(tile),
        (tile == TileKind::Floor || tile == TileKind::Wall) ==> layer_rank(r.layer) == 0,
        tile == TileKind::Goal ==> layer_rank(r.layer) == 1,
        (tile == TileKind::Box || tile == TileKind::Player) ==> layer_rank(r.layer) == 2,
{
    let atlas_index: usize = match tile {
        TileKind::Floor => 0,
        TileKind::Box => 1,
        TileKind::Goal => 2,
        TileKind::Wall => 3,
        TileKind::Player => 7,
    };
    let layer = match tile {
        TileKind::Floor | TileKind::Wall => DepthLayer::Background,
        TileKind::Goal => DepthLayer::Midground,
        TileKind::Box | TileKind::Player => DepthLayer::Foreground,
    };
    TileVisual { atlas_index, layer }
}

} // verus!
