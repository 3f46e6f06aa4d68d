use vstd::prelude::*;

use crate::grid::{rows_model, GridMap, GridModel};
use crate::text::chars_of;
use crate::tile::TileKind;

verus! {

/// Failure of a replay.
#[derive(Clone, Copy, Debug, PartialEq, Eq, Structural)]
pub enum ReplayError {
    /// A token is no move symbol, or asks for a push where no box stands.
    InvalidAction,
}

/// A plain step: `u`, `d`, `l` or `r`.
pub open spec fn is_step(c: char) -> bool {
    c == 'u' || c == 'd' || c == 'l' || c == 'r'
}

/// A push: `U`, `D`, `L` or `R`.
pub open spec fn is_push(c: char) -> bool {
    c == 'U' || c == 'D' || c == 'L' || c == 'R'
}

/// The cell one step from `p` in the direction of a step token; rows grow
/// downwards.
pub open spec fn step_from(p: (int, int), c: char) -> (int, int) {
    if c == 'u' {
        (p.0, p.1 - 1)
    } else if c == 'd' {
        (p.0, p.1 + 1)
    } else if c == 'l' {
        (p.0 - 1, p.1)
    } else {
        (p.0 + 1, p.1)
    }
}

/// The cells the player stands on while replaying the tokens, starting at
/// the origin: one more than there are tokens.
pub open spec fn trail(tokens: Seq<char>) -> Seq<(int, int)>
    decreases tokens.len(),
{
    if tokens.len() == 0 {
        seq![(0int, 0int)]
    } else {
        let before = trail(tokens.drop_last());
        before.push(step_from(before.last(), tokens.last()))
    }
}

pub open spec fn lowest(s: Seq<int>) -> int
    decreases s.len(),
{
    if s.len() <= 1 {
        if s.len() == 1 { s[0] } else { 0 }
    } else {
        let m = lowest(s.drop_last());
        if s.last() < m { s.last() } else { m }
    }
}

pub open spec fn highest(s: Seq<int>) -> int
    decreases s.len(),
{
    if s.len() <= 1 {
        if s.len() == 1 { s[0] } else { 0 }
    } else {
        let m = highest(s.drop_last());
        if s.last() > m { s.last() } else { m }
    }
}

pub open spec fn xs(p: Seq<(int, int)>) -> Seq<int> {
    p.map_values(|q: (int, int)| q.0)
}

pub open spec fn ys(p: Seq<(int, int)>) -> Seq<int> {
    p.map_values(|q: (int, int)| q.1)
}

/// The stack of the cell at `q`: the player, on floor, where the trail ends;
/// floor where the trail passes; nothing elsewhere.
pub open spec fn trail_stack(p: Seq<(int, int)>, q: (int, int)) -> Seq<TileKind> {
    if p.last() == q {
        seq![TileKind::Floor, TileKind::Player]
    } else if p.contains(q) {
        seq![TileKind::Floor]
    } else {
        seq![]
    }
}

/// The map that a replay of valid tokens builds: the smallest rectangle
/// that holds the whole trail, shifted so that its corner is `(0, 0)`.
pub open spec fn replay_model(tokens: Seq<char>) -> GridModel {
    let p = trail(tokens);
    let x0 = lowest(xs(p));
    let y0 = lowest(ys(p));
    let w = (highest(xs(p)) - x0 + 1) as nat;
    let h = (highest(ys(p)) - y0 + 1) as nat;
    GridModel {
        width: w,
        height: h,
        cells: Seq::new(h, |y: int| Seq::new(w, |x: int| trail_stack(p, (x + x0, y + y0)))),
    }
}

/// A replay succeeds exactly when every token is a plain step. The replay
/// starts from a single cell holding the player and no box, and boxes are
/// never added, so a push never finds a box to move and always fails: the
/// builder derives maps from walks alone.
pub open spec fn replay_valid(tokens: Seq<char>) -> bool {
    forall|i: int| 0 <= i < tokens.len() ==> is_step(#[trigger] tokens[i])
}

proof fn lemma_trail_len(tokens: Seq<char>)
    ensures
        trail(tokens).len() == tokens.len() + 1,
    decreases tokens.len(),
{
    if tokens.len() > 0 {
        lemma_trail_len(tokens.drop_last());
    }
}

proof fn lemma_extremes(s: Seq<int>)
    requires
        s.len() >= 1,
    ensures
        forall|k: int| 0 <= k < s.len() ==> lowest(s) <= #[trigger] s[k] <= highest(s),
        exists|k: int| 0 <= k < s.len() && #[trigger] s[k] == lowest(s),
        exists|k: int| 0 <= k < s.len() && #[trigger] s[k] == highest(s),
    decreases s.len(),
{
    if s.len() > 1 {
        let t = s.drop_last();
        lemma_extremes(t);
        assert forall|k: int| 0 <= k < s.len() implies lowest(s) <= #[trigger] s[k] <= highest(
            s,
        ) by {
            if k < t.len() {
                assert(s[k] == t[k]);
            }
        }
        let lo = choose|k: int| 0 <= k < t.len() && #[trigger] t[k] == lowest(t);
        let hi = choose|k: int| 0 <= k < t.len() && #[trigger] t[k] == highest(t);
        assert(s[lo] == t[lo]);
        assert(s[hi] == t[hi]);
        assert(s[s.len() - 1] == s.last());
    } else {
        assert(s[0] == lowest(s));
    }
}

/// The map that a replay builds is the smallest rectangle that holds the
/// trail: every cell the player reaches lies inside it, and the trail
/// touches each of its four edges.
pub proof fn lemma_replay_bounds_tight(tokens: Seq<char>)
    ensures
        ({
            let p = trail(tokens);
            let m = replay_model(tokens);
            let x0 = lowest(xs(p));
            let y0 = lowest(ys(p));
            &&& forall|k: int|
                0 <= k < p.len() ==> m.in_bounds(#[trigger] p[k].0 - x0, p[k].1 - y0)
            &&& exists|k: int| 0 <= k < p.len() && #[trigger] p[k].0 - x0 == 0
            &&& exists|k: int| 0 <= k < p.len() && #[trigger] p[k].0 - x0 == m.width - 1
            &&& exists|k: int| 0 <= k < p.len() && #[trigger] p[k].1 - y0 == 0
            &&& exists|k: int| 0 <= k < p.len() && #[trigger] p[k].1 - y0 == m.height - 1
        }),
{
    let p = trail(tokens);
    lemma_trail_len(tokens);
    lemma_extremes(xs(p));
    lemma_extremes(ys(p));
    assert forall|k: int| 0 <= k < p.len() implies #[trigger] xs(p)[k] == p[k].0 && ys(p)[k]
        == p[k].1 by {}
    let a = choose|k: int| 0 <= k < xs(p).len() && #[trigger] xs(p)[k] == lowest(xs(p));
    let b = choose|k: int| 0 <= k < xs(p).len() && #[trigger] xs(p)[k] == highest(xs(p));
    let c = choose|k: int| 0 <= k < ys(p).len() && #[trigger] ys(p)[k] == lowest(ys(p));
    let d = choose|k: int| 0 <= k < ys(p).len() && #[trigger] ys(p)[k] == highest(ys(p));
    assert(p[a].0 == xs(p)[a]);
    assert(p[b].0 == xs(p)[b]);
    assert(p[c].1 == ys(p)[c]);
    assert(p[d].1 == ys(p)[d]);
    assert forall|k: int| 0 <= k < p.len() implies replay_model(tokens).in_bounds(
        #[trigger] p[k].0 - lowest(xs(p)),
        p[k].1 - lowest(ys(p)),
    ) by {
        assert(xs(p)[k] == p[k].0);
        assert(ys(p)[k] == p[k].1);
    }
}

pub open spec fn trail_model(v: Seq<(i128, i128)>) -> Seq<(int, int)> {
    v.map_values(|q: (i128, i128)| (q.0 as int, q.1 as int))
}

fn visited(pts: &Vec<(i128, i128)>, x: i128, y: i128) -> (r: bool)
    ensures
        r == trail_model(pts@).contains((x as int, y as int)),
{
    let mut i: usize = 0;
    while i < pts.len()
        invariant
            0 <= i <= pts.len(),
            forall|k: int| 0 <= k < i ==> trail_model(pts@)[k] != (x as int, y as int),
        decreases pts.len() - i,
    {
        if pts[i].0 == x && pts[i].1 == y {
            assert(trail_model(pts@)[i as int] == (x as int, y as int));
            return true;
        }
        i += 1;
    }
    false
}

/// Builds a map from a string of move tokens by walking the player from an
/// origin cell; the map grows to hold every cell that the player reaches.
pub fn replay(moves: &str) -> (r: Result<GridMap, ReplayError>)
    requires
        moves@.len() < usize::MAX,
    ensures
        r is Ok <==> replay_valid(moves@),
        r is Err ==> r == Err::<GridMap, ReplayError>(ReplayError::InvalidAction),
        r is Ok ==> r->Ok_0@ == replay_model(moves@),
{
    let tokens = chars_of(moves);
    let mut pts: Vec<(i128, i128)> = Vec::new();
    pts.push((0, 0));
    let mut cx: i128 = 0;
    let mut cy: i128 = 0;
    let mut min_x: i128 = 0;
    let mut max_x: i128 = 0;
    let mut min_y: i128 = 0;
    let mut max_y: i128 = 0;
    assert(trail_model(pts@) =~= trail(tokens@.take(0)));
    let mut i: usize = 0;
    while i < tokens.len()
        invariant
            0 <= i <= tokens.len(),
            tokens@ == moves@,
            tokens@.len() < usize::MAX,
            trail_model(pts@) == trail(tokens@.take(i as int)),
            pts@.len() == i + 1,
            forall|k: int| 0 <= k < i ==> is_step(#[trigger] tokens@[k]),
            (cx as int, cy as int) == trail(tokens@.take(i as int)).last(),
            min_x == lowest(xs(trail(tokens@.take(i as int)))),
            max_x == highest(xs(trail(tokens@.take(i as int)))),
            min_y == lowest(ys(trail(tokens@.take(i as int)))),
            max_y == highest(ys(trail(tokens@.take(i as int)))),
            min_x <= cx <= max_x,
            min_y <= cy <= max_y,
            max_x - min_x + max_y - min_y <= i,
            -(i as int) <= min_x <= 0 <= max_x <= i,
            -(i as int) <= min_y <= 0 <= max_y <= i,
        decreases tokens.len() - i,
    {
        let c = tokens[i];
        if !(c == 'u' || c == 'd' || c == 'l' || c == 'r') {
            assert(!is_step(moves@[i as int]));
            return Err(ReplayError::InvalidAction);
        }
        let ghost before = trail(tokens@.take(i as int));
        assert(tokens@.take(i + 1).drop_last() =~= tokens@.take(i as int));
        if c == 'u' {
            cy = cy - 1;
        } else if c == 'd' {
            cy = cy + 1;
        } else if c == 'l' {
            cx = cx - 1;
        } else {
            cx = cx + 1;
        }
        let ghost after = trail(tokens@.take(i + 1));
        assert(after == before.push((cx as int, cy as int)));
        assert(xs(after).drop_last() =~= xs(before));
        assert(ys(after).drop_last() =~= ys(before));
        if cx < min_x {
            min_x = cx;
        }
        if cx > max_x {
            max_x = cx;
        }
        if cy < min_y {
            min_y = cy;
        }
        if cy > max_y {
            max_y = cy;
        }
        pts.push((cx, cy));
        assert(trail_model(pts@) =~= after);
        i += 1;
    }
    assert(tokens@.take(i as int) =~= moves@);
    let ghost p = trail(moves@);
    let w: usize = (max_x - min_x + 1) as usize;
    let h: usize = (max_y - min_y + 1) as usize;
    let mut rows: Vec<Vec<Vec<TileKind>>> = Vec::new();
    let mut y: usize = 0;
    while y < h
        invariant
            0 <= y <= h,
            trail_model(pts@) == p,
            pts@.len() > 0,
            (cx as int, cy as int) == p.last(),
            w == max_x - min_x + 1,
            h == max_y - min_y + 1,
            -(usize::MAX as int) <= min_x <= 0,
            -(usize::MAX as int) <= min_y <= 0,
            rows@.len() == y,
            forall|j: int| 0 <= j < y ==> #[trigger] rows@[j]@.len() == w,
            forall|j: int, i: int|
                0 <= j < y && 0 <= i < w ==> (#[trigger] rows@[j]@[i])@ == trail_stack(
                    p,
                    (i + min_x, j + min_y),
                ),
        decreases h - y,
    {
        let mut row: Vec<Vec<TileKind>> = Vec::new();
        let mut x: usize = 0;
        while x < w
            invariant
                0 <= x <= w,
                0 <= y < h,
                trail_model(pts@) == p,
                pts@.len() > 0,
                (cx as int, cy as int) == p.last(),
                w == max_x - min_x + 1,
                h == max_y - min_y + 1,
                -(usize::MAX as int) <= min_x <= 0,
                -(usize::MAX as int) <= min_y <= 0,
                row@.len() == x,
                forall|i: int|
                    0 <= i < x ==> (#[trigger] row@[i])@ == trail_stack(
                        p,
                        (i + min_x, y + min_y),
                    ),
            decreases w - x,
        {
            let qx: i128 = x as i128 + min_x;
            let qy: i128 = y as i128 + min_y;
            let stack: Vec<TileKind> = if qx == cx && qy == cy {
                vec![TileKind::Floor, TileKind::Player]
            } else if visited(&pts, qx, qy) {
                vec![TileKind::Floor]
            } else {
                Vec::new()
            };
            assert(stack@ =~= trail_stack(p, (x + min_x, y + min_y)));
            row.push(stack);
            x += 1;
        }
        rows.push(row);
        y += 1;
    }
    let r = GridMap::from_rows(w, rows);
    let ghost expected = replay_model(moves@);
    assert(rows_model(rows@) =~= expected.cells) by {
        assert forall|j: int| 0 <= j < h implies rows_model(rows@)[j] =~= expected.cells[j] by {}
    }
    Ok(r)
}

} // verus!
