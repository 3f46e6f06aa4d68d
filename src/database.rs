use vstd::prelude::*;

use crate::grid::{GridMap, GridModel};
use crate::parser::{block_result, level_blocks, parse_levels, ParseError};

verus! {

/// Failure to select a level.
#[derive(Clone, Copy, Debug, PartialEq, Eq, Structural)]
pub enum LevelError {
    /// No level parsed successfully, so there is none to select.
    EmptyDatabase,
}

/// A text whose second of three blocks is rejected and whose other two
/// parse contributes exactly those two levels, first and third in order.
pub proof fn lemma_rejected_block_skipped(text: Seq<char>)
    requires
        level_blocks(text).len() == 3,
        block_result(level_blocks(text)[0]) is Ok,
        block_result(level_blocks(text)[1]) is Err,
        block_result(level_blocks(text)[2]) is Ok,
    ensures
        text_levels(text) == seq![
            block_result(level_blocks(text)[0])->Ok_0,
            block_result(level_blocks(text)[2])->Ok_0,
        ],
{
    let rs = block_results(text);
    let r2 = rs.drop_last();
    let r1 = r2.drop_last();
    let r0 = r1.drop_last();
    assert(r1.last() == rs[0]);
    assert(r2.last() == rs[1]);
    assert(r0.len() == 0);
    assert(successes(r1) == successes(r0).push(rs[0]->Ok_0));
    assert(successes(r2) == successes(r1));
    assert(successes(rs) == successes(r2).push(rs[2]->Ok_0));
    assert(successes(rs) =~= seq![rs[0]->Ok_0, rs[2]->Ok_0]);
}

/// Texts none of whose blocks parse give no levels, so asking the database
/// built from them for its first level fails with `EmptyDatabase`.
pub proof fn lemma_no_parseable_levels(texts: Seq<Seq<char>>)
    requires
        forall|i: int, k: int|
            0 <= i < texts.len() && 0 <= k < level_blocks(texts[i]).len() ==> (#[trigger] block_result(
                level_blocks(texts[i])[k],
            )) is Err,
    ensures
        all_levels(texts).len() == 0,
    decreases texts.len(),
{
    if texts.len() > 0 {
        let last = texts.last();
        assert forall|i: int, k: int|
            0 <= i < texts.drop_last().len() && 0 <= k < level_blocks(texts.drop_last()[i]).len()
            implies (#[trigger] block_result(level_blocks(texts.drop_last()[i])[k])) is Err by {
            assert(texts.drop_last()[i] == texts[i]);
        }
        lemma_no_parseable_levels(texts.drop_last());
        lemma_all_failures_no_successes(block_results(last));
    }
}

proof fn lemma_all_failures_no_successes(rs: Seq<Result<GridModel, ParseError>>)
    requires
        forall|k: int| 0 <= k < rs.len() ==> (#[trigger] rs[k]) is Err,
    ensures
        successes(rs).len() == 0,
    decreases rs.len(),
{
    if rs.len() > 0 {
        lemma_all_failures_no_successes(rs.drop_last());
    }
}

/// The maps of the successful results, in order; failures are dropped.
pub open spec fn successes(rs: Seq<Result<GridModel, ParseError>>) -> Seq<GridModel>
    decreases rs.len(),
{
    if rs.len() == 0 {
        seq![]
    } else {
        let kept = successes(rs.drop_last());
        match rs.last() {
            Ok(m) => kept.push(m),
            Err(_) => kept,
        }
    }
}

/// What each level block of a text parses to, in order.
pub open spec fn block_results(text: Seq<char>) -> Seq<Result<GridModel, ParseError>> {
    level_blocks(text).map_values(|b: Seq<Seq<char>>| block_result(b))
}

/// The levels that one text contributes: those of its blocks that parse.
pub open spec fn text_levels(text: Seq<char>) -> Seq<GridModel> {
    successes(block_results(text))
}

/// The levels of several texts, text by text, each in block order.
pub open spec fn all_levels(texts: Seq<Seq<char>>) -> Seq<GridModel>
    decreases texts.len(),
{
    if texts.len() == 0 {
        seq![]
    } else {
        all_levels(texts.drop_last()) + text_levels(texts.last())
    }
}

pub open spec fn texts_model(texts: Seq<String>) -> Seq<Seq<char>> {
    texts.map_values(|t: String| t@)
}

/// The levels that parsed, from all level files, in the order of the files.
#[derive(Debug)]
pub struct Database {
    levels: Vec<GridMap>,
}

impl View for Database {
    type V = Seq<GridModel>;

    closed spec fn view(&self) -> Seq<GridModel> {
        self.levels@.map_values(|m: GridMap| m@)
    }
}

impl Database {
    /// Builds the database from the contents of the level files. Blocks that
    /// fail to parse are left out; every other level is kept, in order.
    pub fn from_texts(texts: &Vec<String>) -> (r: Database)
        ensures
            r@ == all_levels(texts_model(texts@)),
    {
        let mut levels: Vec<GridMap> = Vec::new();
        let mut i: usize = 0;
        while i < texts.len()
            invariant
                0 <= i <= texts.len(),
                levels@.map_values(|m: GridMap| m@) == all_levels(
                    texts_model(texts@).take(i as int),
                ),
            decreases texts.len() - i,
        {
            let ghost text = texts@[i as int]@;
            let ghost before = levels@.map_values(|m: GridMap| m@);
            assert(texts_model(texts@).take(i + 1).drop_last() =~= texts_model(texts@).take(
                i as int,
            ));
            let results = parse_levels(texts[i].as_str());
            let mut j: usize = 0;
            while j < results.len()
                invariant
                    0 <= j <= results.len(),
                    results@.len() == level_blocks(text).len(),
                    forall|k: int|
                        0 <= k < results@.len() ==> crate::parser::result_model(
                            #[trigger] results@[k],
                        ) == block_result(level_blocks(text)[k]),
                    levels@.map_values(|m: GridMap| m@) == before + successes(
                        block_results(text).take(j as int),
                    ),
                    decreases results.len() - j,
            {
                assert(block_results(text).take(j + 1).drop_last() =~= block_results(text).take(
                    j as int,
                ));
                match &results[j] {
                    Ok(m) => {
                        let ghost old_levels = levels@;
                        levels.push(m.clone_map());
                        assert(levels@.map_values(|m: GridMap| m@) =~= old_levels.map_values(
                            |m: GridMap| m@,
                        ).push(m@));
                    },
                    Err(_) => {},
                }
                j += 1;
            }
            assert(block_results(text).take(j as int) =~= block_results(text));
            i += 1;
        }
        assert(texts_model(texts@).take(i as int) =~= texts_model(texts@));
        Database { levels }
    }

    /// The number of levels.
    pub fn len(&self) -> (r: usize)
        ensures
            r == self@.len(),
    {
        self.levels.len()
    }

    /// The level at `index`, or `None` past the last one.
    pub fn level(&self, index: usize) -> (r: Option<&GridMap>)
        ensures
            r is None <==> index >= self@.len(),
            r is Some ==> r->Some_0@ == self@[index as int],
    {
        if index < self.levels.len() {
            Some(&self.levels[index])
        } else {
            None
        }
    }

    /// The first level, or `EmptyDatabase` when no level parsed.
    pub fn first_level(&self) -> (r: Result<&GridMap, LevelError>)
        ensures
            r is Err <==> self@.len() == 0,
            r is Err ==> r == Err::<&GridMap, LevelError>(LevelError::EmptyDatabase),
            r is Ok ==> r->Ok_0@ == self@[0],
    {
        if self.levels.len() == 0 {
            Err(LevelError::EmptyDatabase)
        } else {
            Ok(&self.levels[0])
        }
    }
}

} // verus!
