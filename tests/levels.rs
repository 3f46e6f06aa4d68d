use sokoban_core::database::{Database, LevelError};
use sokoban_core::grid::MapError;
use sokoban_core::parser::{parse_block, parse_levels, symbol_stack, ParseError};
use sokoban_core::replay::{replay, ReplayError};
use sokoban_core::spawn::{spawn_level, GridPosition, TILE_SIZE};
use sokoban_core::text::chars_of;
use sokoban_core::tile::{map_tile, DepthLayer, TileKind};

const LEVEL: &str = "#####\n#@$.#\n#####";

#[test]
fn parsed_level_has_block_dimensions() {
    let results = parse_levels(LEVEL);
    assert_eq!(results.len(), 1);
    let map = results[0].as_ref().unwrap();
    assert_eq!(map.dimensions(), (5, 3));
    for x in 0..5 {
        for y in 0..3 {
            assert!(map.get(x, y).is_ok());
        }
    }
    assert_eq!(map.get(0, 0).unwrap(), &vec![TileKind::Wall]);
    assert_eq!(map.get(1, 1).unwrap(), &vec![TileKind::Player]);
    assert_eq!(map.get(2, 1).unwrap(), &vec![TileKind::Box]);
    assert_eq!(map.get(3, 1).unwrap(), &vec![TileKind::Goal]);
}

#[test]
fn box_on_goal_puts_goal_beneath_box() {
    let map = parse_levels("#*+ #").remove(0).unwrap();
    assert_eq!(
        map.get(1, 0).unwrap(),
        &vec![TileKind::Goal, TileKind::Box]
    );
    assert_eq!(
        map.get(2, 0).unwrap(),
        &vec![TileKind::Goal, TileKind::Player]
    );
    assert_eq!(map.get(3, 0).unwrap(), &vec![TileKind::Floor]);
}

#[test]
fn ragged_middle_block_is_skipped() {
    let text = "###\n#@#\n###\n\n####\n#@\n####\n\n#.#\n#$#";
    let results = parse_levels(text);
    assert_eq!(results.len(), 3);
    assert!(results[0].is_ok());
    assert_eq!(results[1].as_ref().err(), Some(&ParseError::Ragged));
    assert!(results[2].is_ok());
    let db = Database::from_texts(&vec![text.to_string()]);
    assert_eq!(db.len(), 2);
    assert_eq!(db.first_level().unwrap().dimensions(), (3, 3));
}

#[test]
fn unknown_symbol_rejects_block() {
    let results = parse_levels("#x#\n\n#@#");
    assert_eq!(results.len(), 2);
    assert_eq!(results[0].as_ref().err(), Some(&ParseError::UnknownSymbol));
    assert!(results[1].is_ok());
}

#[test]
fn carriage_returns_and_extra_blank_lines_are_ignored() {
    let results = parse_levels("\n\n#@#\r\n#.#\r\n\r\n\r\n\n##\n");
    assert_eq!(results.len(), 2);
    assert_eq!(results[0].as_ref().unwrap().dimensions(), (3, 2));
    assert_eq!(results[1].as_ref().unwrap().dimensions(), (2, 1));
}

#[test]
fn carriage_return_inside_a_line_is_unknown() {
    let results = parse_levels("#\r@#\n\n#@#\r");
    assert_eq!(results.len(), 2);
    assert_eq!(results[0].as_ref().err(), Some(&ParseError::UnknownSymbol));
    assert_eq!(results[1].as_ref().unwrap().dimensions(), (3, 1));
}

#[test]
fn plain_symbols_give_one_layer() {
    let map = parse_levels("# .$@").remove(0).unwrap();
    assert_eq!(map.get(1, 0).unwrap(), &vec![TileKind::Floor]);
    assert_eq!(map.get(2, 0).unwrap(), &vec![TileKind::Goal]);
    assert_eq!(map.get(3, 0).unwrap(), &vec![TileKind::Box]);
    assert_eq!(map.get(4, 0).unwrap(), &vec![TileKind::Player]);
}

#[test]
fn database_levels_by_index() {
    let db = Database::from_texts(&vec!["#@#\n\n##".to_string(), "@".to_string()]);
    assert_eq!(db.len(), 3);
    assert_eq!(db.level(0).unwrap().dimensions(), (3, 1));
    assert_eq!(db.level(1).unwrap().dimensions(), (2, 1));
    assert_eq!(db.level(2).unwrap().dimensions(), (1, 1));
    assert!(db.level(3).is_none());
}

#[test]
fn empty_text_has_no_levels() {
    assert!(parse_levels("").is_empty());
    assert!(parse_levels("\n\n").is_empty());
}

#[test]
fn block_of_rows_parses_directly() {
    let rows = vec![vec!['#', '$'], vec!['.', '@']];
    let map = parse_block(&rows).unwrap();
    assert_eq!(map.dimensions(), (2, 2));
    assert_eq!(map.get(0, 1).unwrap(), &vec![TileKind::Goal]);
    let ragged = vec![vec!['#', '#'], vec!['#']];
    assert_eq!(parse_block(&ragged).err(), Some(ParseError::Ragged));
}

#[test]
fn symbols_map_to_stacks() {
    assert_eq!(symbol_stack('#'), Some(vec![TileKind::Wall]));
    assert_eq!(symbol_stack('-'), Some(vec![TileKind::Floor]));
    assert_eq!(symbol_stack('_'), Some(vec![TileKind::Floor]));
    assert_eq!(symbol_stack('?'), None);
}

#[test]
fn query_past_right_edge_is_out_of_bounds() {
    let map = parse_levels(LEVEL).remove(0).unwrap();
    assert_eq!(map.get(5, 0).err(), Some(MapError::OutOfBounds));
    assert_eq!(map.get(0, 3).err(), Some(MapError::OutOfBounds));
    let replayed = replay("rd").unwrap();
    let (w, _) = replayed.dimensions();
    assert_eq!(replayed.get(w, 0).err(), Some(MapError::OutOfBounds));
}

#[test]
fn replay_single_step_right() {
    let map = replay("r").unwrap();
    assert_eq!(map.dimensions(), (2, 1));
    assert_eq!(map.get(0, 0).unwrap(), &vec![TileKind::Floor]);
    assert_eq!(map.get(1, 0).unwrap(), &vec![TileKind::Floor, TileKind::Player]);
}

#[test]
fn replay_grows_left_and_up() {
    let map = replay("lu").unwrap();
    assert_eq!(map.dimensions(), (2, 2));
    assert_eq!(map.get(0, 0).unwrap(), &vec![TileKind::Floor, TileKind::Player]);
    assert_eq!(map.get(0, 1).unwrap(), &vec![TileKind::Floor]);
    assert_eq!(map.get(1, 1).unwrap(), &vec![TileKind::Floor]);
    assert_eq!(map.get(1, 0).unwrap(), &Vec::<TileKind>::new());
}

#[test]
fn replay_of_nothing_is_one_cell() {
    let map = replay("").unwrap();
    assert_eq!(map.dimensions(), (1, 1));
    assert_eq!(map.get(0, 0).unwrap(), &vec![TileKind::Floor, TileKind::Player]);
}

#[test]
fn replay_push_without_box_fails() {
    assert_eq!(replay("R").err(), Some(ReplayError::InvalidAction));
    assert_eq!(replay("rrU").err(), Some(ReplayError::InvalidAction));
}

#[test]
fn replay_unknown_token_fails() {
    assert_eq!(replay("rx").err(), Some(ReplayError::InvalidAction));
}

#[test]
fn empty_database_has_no_first_level() {
    let db = Database::from_texts(&vec!["#x\n".to_string(), "##\n#".to_string()]);
    assert_eq!(db.len(), 0);
    assert_eq!(db.first_level().err(), Some(LevelError::EmptyDatabase));
    assert_eq!(spawn_level(&db).err(), Some(LevelError::EmptyDatabase));
    let none = Database::from_texts(&Vec::new());
    assert_eq!(none.first_level().err(), Some(LevelError::EmptyDatabase));
}

#[test]
fn database_keeps_levels_of_all_files_in_order() {
    let db = Database::from_texts(&vec!["#@#".to_string(), "##\n\n#\n#".to_string()]);
    assert_eq!(db.len(), 3);
    assert_eq!(db.first_level().unwrap().dimensions(), (3, 1));
}

#[test]
fn tile_visuals() {
    let cases = [
        (TileKind::Floor, 0, DepthLayer::Background),
        (TileKind::Wall, 3, DepthLayer::Background),
        (TileKind::Box, 1, DepthLayer::Foreground),
        (TileKind::Goal, 2, DepthLayer::Midground),
        (TileKind::Player, 7, DepthLayer::Foreground),
    ];
    for (kind, index, layer) in cases {
        let v = map_tile(kind);
        assert_eq!(v.atlas_index, index);
        assert_eq!(v.layer, layer);
    }
    assert_eq!(DepthLayer::Background.depth(), 0);
    assert_eq!(DepthLayer::Midground.depth(), 1);
    assert_eq!(DepthLayer::Foreground.depth(), 2);
}

#[test]
fn grid_position_target_scales_by_cell_size() {
    let p = GridPosition { x: 3, y: 5 };
    assert_eq!(p.target(), (384, 640));
    assert_eq!(TILE_SIZE, 128);
}

#[test]
fn spawn_level_lists_tiles_by_column() {
    let db = Database::from_texts(&vec!["#@\n*-".to_string()]);
    let spawns = spawn_level(&db).unwrap();
    let listed: Vec<(usize, usize, TileKind)> = spawns
        .iter()
        .map(|s| (s.position.x, s.position.y, s.kind))
        .collect();
    assert_eq!(
        listed,
        vec![
            (0, 0, TileKind::Wall),
            (0, 1, TileKind::Goal),
            (0, 1, TileKind::Box),
            (1, 0, TileKind::Player),
            (1, 1, TileKind::Floor),
        ]
    );
    assert_eq!(spawns[2].visual, map_tile(TileKind::Box));
}

#[test]
fn chars_of_keeps_order() {
    assert_eq!(chars_of("a#é"), vec!['a', '#', 'é']);
}
