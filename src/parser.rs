use vstd::prelude::*;

use crate::grid::{rows_model, GridMap, GridModel};
use crate::text::chars_of;
use crate::tile::TileKind;

verus! {

/// Why one level block of a text was rejected.
#[derive(Clone, Copy, Debug, PartialEq, Eq, Structural)]
pub enum ParseError {
    /// Not every row of the block has the same width.
    Ragged,
    /// The block holds a character that is no level symbol.
    UnknownSymbol,
}

/// The tile stack, lowest layer first, that a level symbol stands for: one
/// kind per plain symbol, all blanks being floor, and for the two composite
/// symbols a goal beneath the box or the player.
pub open spec fn stack_of(c: char) -> Option<Seq<TileKind>> {
    if c == '#' {
        Some(seq![TileKind::Wall])
    } else if c == ' ' || c == '-' || c == '_' {
        Some(seq![TileKind::Floor])
    } else if c == '.' {
        Some(seq![TileKind::Goal])
    } else if c == '$' {
        Some(seq![TileKind::Box])
    } else if c == '@' {
        Some(seq![TileKind::Player])
    } else if c == '*' {
        Some(seq![TileKind::Goal, TileKind::Box])
    } else if c == '+' {
        Some(seq![TileKind::Goal, TileKind::Player])
    } else {
        None
    }
}

/// Width of a block: that of its first row.
pub open spec fn block_width(rows: Seq<Seq<char>>) -> nat {
    if rows.len() > 0 { rows[0].len() } else { 0 }
}

pub open spec fn is_ragged(rows: Seq<Seq<char>>) -> bool {
    exists|y: int| 0 <= y < rows.len() && #[trigger] rows[y].len() != block_width(rows)
}

pub open spec fn has_unknown_symbol(rows: Seq<Seq<char>>) -> bool {
    exists|y: int, x: int|
        0 <= y < rows.len() && 0 <= x < rows[y].len() && (#[trigger] stack_of(rows[y][x])) is None
}

/// What one block of rows parses to: `Ragged` if its rows differ in width,
/// else `UnknownSymbol` if it holds a non-symbol, else the map whose cell
/// `(x, y)` holds the stack of the symbol in row `y`, column `x`.
pub open spec fn block_result(rows: Seq<Seq<char>>) -> Result<GridModel, ParseError> {
    if is_ragged(rows) {
        Err(ParseError::Ragged)
    } else if has_unknown_symbol(rows) {
        Err(ParseError::UnknownSymbol)
    } else {
        Ok(
            GridModel {
                width: block_width(rows),
                height: rows.len(),
                cells: Seq::new(
                    rows.len(),
                    |y: int| Seq::new(block_width(rows), |x: int| stack_of(rows[y][x])->Some_0),
                ),
            },
        )
    }
}

/// The pieces of a text between line feeds, in order; a text with `n` line
/// feeds has `n + 1` of them.
pub open spec fn raw_lines(s: Seq<char>) -> Seq<Seq<char>>
    decreases s.len(),
{
    if s.len() == 0 {
        seq![seq![]]
    } else {
        let ls = raw_lines(s.drop_last());
        if s.last() == '\n' {
            ls.push(seq![])
        } else {
            ls.update(ls.len() - 1, ls.last().push(s.last()))
        }
    }
}

/// A line without the carriage return that may end it.
pub open spec fn strip_cr(l: Seq<char>) -> Seq<char> {
    if l.len() > 0 && l.last() == '\r' { l.drop_last() } else { l }
}

/// The lines of a text: the text cut at each line feed, each piece without
/// a final carriage return.
pub open spec fn text_lines(s: Seq<char>) -> Seq<Seq<char>> {
    raw_lines(s).map_values(|l: Seq<char>| strip_cr(l))
}

/// The maximal runs of non-empty lines, in order: a non-empty line joins the
/// run of the line before it when that line is non-empty, and starts a new
/// run otherwise; empty lines belong to no run.
pub open spec fn blocks_of(lines: Seq<Seq<char>>) -> Seq<Seq<Seq<char>>>
    decreases lines.len(),
{
    if lines.len() == 0 {
        seq![]
    } else {
        let bs = blocks_of(lines.drop_last());
        let l = lines.last();
        if l.len() == 0 {
            bs
        } else if lines.len() >= 2 && lines[lines.len() - 2].len() > 0 {
            bs.update(bs.len() - 1, bs.last().push(l))
        } else {
            bs.push(seq![l])
        }
    }
}

/// The level blocks of a text: its maximal runs of non-empty lines.
pub open spec fn level_blocks(s: Seq<char>) -> Seq<Seq<Seq<char>>> {
    blocks_of(text_lines(s))
}

proof fn lemma_raw_lines_nonempty(s: Seq<char>)
    ensures
        raw_lines(s).len() >= 1,
    decreases s.len(),
{
    if s.len() > 0 {
        lemma_raw_lines_nonempty(s.drop_last());
    }
}

proof fn lemma_block_rows_nonempty(lines: Seq<Seq<char>>)
    ensures
        forall|k: int| 0 <= k < blocks_of(lines).len() ==> (#[trigger] blocks_of(lines)[k]).len() > 0,
    decreases lines.len(),
{
    if lines.len() > 0 {
        let prev = blocks_of(lines.drop_last());
        lemma_block_rows_nonempty(lines.drop_last());
        if lines.len() >= 2 && lines[lines.len() - 2].len() > 0 && lines.last().len() > 0 {
            lemma_open_run(lines.drop_last());
        }
        assert forall|k: int| 0 <= k < blocks_of(lines).len() implies (#[trigger] blocks_of(
            lines,
        )[k]).len() > 0 by {
            if k < prev.len() {
                assert(prev[k].len() > 0);
            }
        }
    }
}

proof fn lemma_open_run(lines: Seq<Seq<char>>)
    requires
        lines.len() > 0,
        lines.last().len() > 0,
    ensures
        blocks_of(lines).len() > 0,
    decreases lines.len(),
{
    if lines.len() >= 2 && lines[lines.len() - 2].len() > 0 {
        lemma_open_run(lines.drop_last());
    }
}

/// The model of a parse result.
pub open spec fn result_model(r: Result<GridMap, ParseError>) -> Result<GridModel, ParseError> {
    match r {
        Ok(m) => Ok(m@),
        Err(e) => Err(e),
    }
}

pub open spec fn chars_model(rows: Seq<Vec<char>>) -> Seq<Seq<char>> {
    Seq::new(rows.len(), |y: int| rows[y]@)
}

/// The stack of a level symbol, or `None` for any other character.
pub fn symbol_stack(c: char) -> (r: Option<Vec<TileKind>>)
    ensures
        r is Some <==> stack_of(c) is Some,
        r is Some ==> r->Some_0@ == stack_of(c)->Some_0,
{
    if c == '#' {
        Some(vec![TileKind::Wall])
    } else if c == ' ' || c == '-' || c == '_' {
        Some(vec![TileKind::Floor])
    } else if c == '.' {
        Some(vec![TileKind::Goal])
    } else if c == '$' {
        Some(vec![TileKind::Box])
    } else if c == '@' {
        Some(vec![TileKind::Player])
    } else if c == '*' {
        Some(vec![TileKind::Goal, TileKind::Box])
    } else if c == '+' {
        Some(vec![TileKind::Goal, TileKind::Player])
    } else {
        None
    }
}

/// Parses one block of rows, `rows[y][x]` being the symbol at `(x, y)`.
pub fn parse_block(rows: &Vec<Vec<char>>) -> (r: Result<GridMap, ParseError>)
    ensures
        result_model(r) == block_result(chars_model(rows@)),
{
    let ghost model = chars_model(rows@);
    let width: usize = if rows.len() > 0 { rows[0].len() } else { 0 };
    let mut y: usize = 0;
    while y < rows.len()
        invariant
            0 <= y <= rows.len(),
            model == chars_model(rows@),
            width == block_width(model),
            forall|j: int| 0 <= j < y ==> #[trigger] model[j].len() == width,
        decreases rows.len() - y,
    {
        if rows[y].len() != width {
            assert(model[y as int].len() != block_width(model));
            return Err(ParseError::Ragged);
        }
        y += 1;
    }
    assert(!is_ragged(model));
    let mut out: Vec<Vec<Vec<TileKind>>> = Vec::new();
    let mut y: usize = 0;
    while y < rows.len()
        invariant
            0 <= y <= rows.len(),
            model == chars_model(rows@),
            width == block_width(model),
            !is_ragged(model),
            out@.len() == y,
            forall|j: int| 0 <= j < y ==> #[trigger] out@[j]@.len() == width,
            forall|j: int, i: int|
                0 <= j < y && 0 <= i < width ==> (#[trigger] stack_of(model[j][i])) is Some,
            forall|j: int, i: int|
                0 <= j < y && 0 <= i < width ==> (#[trigger] out@[j]@[i])@ == stack_of(
                    model[j][i],
                )->Some_0,
        decreases rows.len() - y,
    {
        let row = &rows[y];
        assert(row@.len() == width) by {
            assert(model[y as int].len() == block_width(model));
        }
        let mut cells: Vec<Vec<TileKind>> = Vec::new();
        let mut x: usize = 0;
        while x < width
            invariant
                0 <= x <= width,
                0 <= y < rows.len(),
                model == chars_model(rows@),
                !is_ragged(model),
                row@ == model[y as int],
                row@.len() == width,
                cells@.len() == x,
                forall|i: int| 0 <= i < x ==> (#[trigger] stack_of(model[y as int][i])) is Some,
                forall|i: int|
                    0 <= i < x ==> (#[trigger] cells@[i])@ == stack_of(model[y as int][i])->Some_0,
            decreases width - x,
        {
            match symbol_stack(row[x]) {
                Some(stack) => {
                    cells.push(stack);
                },
                None => {
                    assert(stack_of(model[y as int][x as int]) is None);
                    assert(0 <= x < model[y as int].len());
                    assert(has_unknown_symbol(model));
                    return Err(ParseError::UnknownSymbol);
                },
            }
            x += 1;
        }
        out.push(cells);
        y += 1;
    }
    let ghost expected = block_result(model);
    let r = GridMap::from_rows(width, out);
    assert(!has_unknown_symbol(model));
    assert(rows_model(out@) =~= expected->Ok_0.cells) by {
        assert forall|j: int| 0 <= j < model.len() implies rows_model(out@)[j]
            =~= expected->Ok_0.cells[j] by {}
    }
    Ok(r)
}

/// A rectangular block of `h` rows of `w` level symbols parses to a map
/// whose dimensions are `(w, h)`, and every coordinate inside them has a
/// stack, so that no query there fails.
pub proof fn lemma_block_dimensions(rows: Seq<Seq<char>>, w: nat)
    requires
        rows.len() > 0,
        forall|y: int| 0 <= y < rows.len() ==> #[trigger] rows[y].len() == w,
        forall|y: int, x: int|
            0 <= y < rows.len() && 0 <= x < w ==> (#[trigger] stack_of(rows[y][x])) is Some,
    ensures
        block_result(rows) is Ok,
        block_result(rows)->Ok_0.width == w,
        block_result(rows)->Ok_0.height == rows.len(),
        block_result(rows)->Ok_0.well_formed(),
        forall|x: int, y: int|
            0 <= x < w && 0 <= y < rows.len() ==> block_result(rows)->Ok_0.in_bounds(x, y),
{
    assert(rows[0].len() == w);
    assert(!is_ragged(rows));
    assert(!has_unknown_symbol(rows));
}

/// In a block that parses, a box-on-goal symbol gives a two-layer stack, a
/// goal beneath a box, and a player-on-goal symbol a goal beneath the player.
pub proof fn lemma_composite_stack_order(rows: Seq<Seq<char>>, x: int, y: int)
    requires
        block_result(rows) is Ok,
        0 <= y < rows.len(),
        0 <= x < rows[y].len(),
    ensures
        rows[y][x] == '*' ==> block_result(rows)->Ok_0.stack(x, y) == seq![
            TileKind::Goal,
            TileKind::Box,
        ],
        rows[y][x] == '+' ==> block_result(rows)->Ok_0.stack(x, y) == seq![
            TileKind::Goal,
            TileKind::Player,
        ],
{
    assert(rows[y].len() == block_width(rows));
}

fn stripped(line: &Vec<char>) -> (r: Vec<char>)
    ensures
        r@ == strip_cr(line@),
{
    let n: usize = if line.len() > 0 && line[line.len() - 1] == '\r' {
        line.len() - 1
    } else {
        line.len()
    };
    let mut out: Vec<char> = Vec::new();
    let mut k: usize = 0;
    while k < n
        invariant
            0 <= k <= n <= line.len(),
            out@ == line@.take(k as int),
        decreases n - k,
    {
        out.push(line[k]);
        assert(out@ =~= line@.take(k + 1));
        k += 1;
    }
    assert(out@ =~= strip_cr(line@));
    out
}

/// Cuts a text at each line feed.
fn split_lines(chars: &Vec<char>) -> (r: Vec<Vec<char>>)
    ensures
        chars_model(r@) == raw_lines(chars@),
{
    let mut lines: Vec<Vec<char>> = Vec::new();
    let mut line: Vec<char> = Vec::new();
    let mut i: usize = 0;
    assert(chars@.take(0) =~= Seq::<char>::empty());
    assert(chars_model(lines@).push(line@) =~= raw_lines(chars@.take(0)));
    while i < chars.len()
        invariant
            0 <= i <= chars.len(),
            chars_model(lines@).push(line@) == raw_lines(chars@.take(i as int)),
        decreases chars.len() - i,
    {
        let ghost before = raw_lines(chars@.take(i as int));
        assert(chars@.take(i + 1).drop_last() =~= chars@.take(i as int));
        let c = chars[i];
        if c == '\n' {
            let ghost done = chars_model(lines@);
            lines.push(line);
            line = Vec::new();
            assert(chars_model(lines@) =~= done.push(before.last()));
            assert(chars_model(lines@).push(line@) =~= before.push(seq![]));
        } else {
            line.push(c);
            assert(chars_model(lines@).push(line@) =~= before.update(
                before.len() - 1,
                before.last().push(c),
            ));
        }
        i += 1;
    }
    assert(chars@.take(i as int) =~= chars@);
    let ghost all = chars_model(lines@).push(line@);
    lines.push(line);
    assert(chars_model(lines@) =~= all);
    lines
}

/// Parses every level block of a text, in order. A rejected block yields its
/// error and does not stop the blocks after it.
///
/// The format is this library's own rather than soukoban's
/// `Level::load_from_str`: a block whose rows differ in width is rejected
/// instead of padded, every blank cell holds a floor, and a cell's layers are
/// kept in drawing order (goal beneath box) instead of as a set of flags.
pub fn parse_levels(text: &str) -> (r: Vec<Result<GridMap, ParseError>>)
    ensures
        r@.len() == level_blocks(text@).len(),
        forall|k: int|
            0 <= k < r@.len() ==> result_model(#[trigger] r@[k]) == block_result(
                level_blocks(text@)[k],
            ),
{
    let chars = chars_of(text);
    let raw = split_lines(&chars);
    let ghost lines = text_lines(text@);
    proof {
        lemma_raw_lines_nonempty(text@);
    }
    let mut results: Vec<Result<GridMap, ParseError>> = Vec::new();
    let mut rows: Vec<Vec<char>> = Vec::new();
    let mut j: usize = 0;
    assert(lines.take(0) =~= Seq::<Seq<char>>::empty());
    while j < raw.len()
        invariant
            0 <= j <= raw.len(),
            lines == text_lines(text@),
            chars_model(raw@) == raw_lines(text@),
            lines.len() == raw@.len(),
            ({
                let bs = blocks_of(lines.take(j as int));
                let open = j > 0 && lines[j - 1].len() > 0;
                let done = if open { bs.drop_last() } else { bs };
                &&& open ==> bs.len() > 0 && chars_model(rows@) == bs.last()
                &&& !open ==> rows@.len() == 0
                &&& results@.len() == done.len()
                &&& forall|k: int|
                    0 <= k < results@.len() ==> result_model(#[trigger] results@[k])
                        == block_result(done[k])
            }),
        decreases raw.len() - j,
    {
        let ghost bs = blocks_of(lines.take(j as int));
        let ghost open = j > 0 && lines[j - 1].len() > 0;
        assert(lines.take(j + 1).drop_last() =~= lines.take(j as int));
        let line = stripped(&raw[j]);
        assert(line@ == lines[j as int]);
        if line.len() == 0 {
            if rows.len() > 0 {
                let parsed = parse_block(&rows);
                results.push(parsed);
                rows = Vec::new();
                assert(bs.drop_last().push(bs.last()) =~= bs);
            } else {
                proof {
                    lemma_block_rows_nonempty(lines.take(j as int));
                    if open {
                        assert(bs.last() == bs[bs.len() - 1]);
                    }
                }
            }
        } else {
            let ghost old_rows = chars_model(rows@);
            rows.push(line);
            proof {
                if open {
                    assert(chars_model(rows@) =~= old_rows.push(lines[j as int]));
                    assert(blocks_of(lines.take(j + 1)).drop_last() =~= bs.drop_last());
                } else {
                    assert(chars_model(rows@) =~= seq![lines[j as int]]);
                    assert(blocks_of(lines.take(j + 1)).drop_last() =~= bs);
                }
            }
        }
        j += 1;
    }
    assert(lines.take(j as int) =~= lines);
    proof {
        lemma_block_rows_nonempty(lines);
        if j > 0 && lines[j - 1].len() > 0 {
            let bs = blocks_of(lines);
            assert(bs.last() == bs[bs.len() - 1]);
        }
    }
    if rows.len() > 0 {
        let ghost bs = blocks_of(lines);
        let parsed = parse_block(&rows);
        results.push(parsed);
        assert(bs.drop_last().push(bs.last()) =~= bs);
    }
    results
}

} // verus!
