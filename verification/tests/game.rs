use bandit_lite::beam::{Clr, Inputs};
use bandit_lite::entity::activation::ActSource;
use bandit_lite::entity::Ent;
use bandit_lite::grid::{Cmd, EntMod, Grid, TileMod};
use bandit_lite::point::Point;
use bandit_lite::port::Expr;
use bandit_lite::style::{Color, StyleCh};
use bandit_lite::{end_frame, mk_move, play_turn, start_frame, undo, Game, Tile, ACT_FUEL};

fn floor_grid(wid: i32, hgt: i32) -> Grid {
    let mut g = Grid::new(wid as usize, hgt as usize);
    for y in 0..hgt {
        for x in 0..wid {
            g.insert_tile(Tile::floor(), Point::new(x, y));
        }
    }
    g
}

fn game(map: Grid, player: Point, dir: Point) -> Game {
    let mut map = map;
    map.insert_entity(Ent::player(), player);
    Game { map, inpts: Inputs::new(), player, dir, won: false, moves: Vec::new() }
}

#[test]
fn moving_the_player() {
    let mut g = game(floor_grid(4, 3), Point::new(1, 1), Point::new(1, 0));
    assert!(mk_move(&mut g, ACT_FUEL));
    assert_eq!(g.player, Point::new(2, 1));
    assert!(g.map.get_ent(Point::new(2, 1)).unwrap().is_player());
    assert!(g.map.get_ent(Point::new(1, 1)).is_none());
    assert_eq!(g.moves.len(), 1);
    assert_eq!(g.moves[0].0, Point::new(1, 0));
    assert!(g.map.get_ent(Point::new(2, 1)).unwrap().updated);
    assert!(!g.won);
}

#[test]
fn walls_block_the_player() {
    let mut map = floor_grid(4, 3);
    map.insert_tile(Tile::wall(), Point::new(2, 1));
    let mut g = game(map, Point::new(1, 1), Point::new(1, 0));
    assert!(mk_move(&mut g, ACT_FUEL));
    assert_eq!(g.player, Point::new(1, 1));
    assert!(g.moves.is_empty());
}

#[test]
fn the_edge_blocks_the_player() {
    let mut g = game(floor_grid(2, 1), Point::new(1, 0), Point::new(1, 0));
    assert!(mk_move(&mut g, ACT_FUEL));
    assert_eq!(g.player, Point::new(1, 0));
}

#[test]
fn pushing_an_object() {
    let mut map = floor_grid(5, 3);
    map.insert_entity(Ent::obj(StyleCh::with('X', Color::Red), vec![Expr::Null; 8]), Point::new(2, 1));
    let mut g = game(map, Point::new(1, 1), Point::new(1, 0));
    assert!(mk_move(&mut g, ACT_FUEL));
    assert_eq!(g.player, Point::new(2, 1));
    assert_eq!(g.map.get_ent(Point::new(3, 1)).unwrap().ch.content, 'X');
}

#[test]
fn immovable_objects_stay() {
    let mut map = floor_grid(5, 3);
    let mut x = Ent::obj(StyleCh::with('X', Color::Red), vec![Expr::Null; 8]);
    x.movable = false;
    map.insert_entity(x, Point::new(2, 1));
    let mut g = game(map, Point::new(1, 1), Point::new(1, 0));
    assert!(mk_move(&mut g, ACT_FUEL));
    assert_eq!(g.player, Point::new(1, 1));
    assert_eq!(g.map.get_ent(Point::new(2, 1)).unwrap().ch.content, 'X');
}

#[test]
fn objects_do_not_go_through_walls() {
    let mut map = floor_grid(5, 3);
    map.insert_entity(Ent::obj(StyleCh::with('X', Color::Red), vec![Expr::Null; 8]), Point::new(2, 1));
    map.insert_tile(Tile::wall(), Point::new(3, 1));
    let mut g = game(map, Point::new(1, 1), Point::new(1, 0));
    assert!(mk_move(&mut g, ACT_FUEL));
    assert_eq!(g.player, Point::new(1, 1));
}

#[test]
fn reaching_the_exit_wins() {
    let mut map = floor_grid(4, 3);
    map.insert_tile(Tile::exit(), Point::new(2, 1));
    let mut g = game(map, Point::new(1, 1), Point::new(1, 0));
    assert!(mk_move(&mut g, ACT_FUEL));
    assert!(g.won);
    assert_eq!(g.player, Point::new(2, 1));
}

#[test]
fn update_with_nothing_to_do() {
    let mut g = game(floor_grid(3, 3), Point::new(1, 1), Point::new(0, 1));
    assert_eq!(g.update(ACT_FUEL), Some(true));
    assert_eq!(g.update(ACT_FUEL), Some(false));
    assert_eq!(g.player, Point::new(1, 2));
}

#[test]
fn a_laser_on_a_goal_opens_a_door() {
    let mut map = floor_grid(6, 4);
    map.insert_entity(Ent::laser(Point::new(1, 0), Clr::Red), Point::new(0, 1));
    map.insert_entity(Ent::goal(Clr::Red), Point::new(4, 1));
    map.insert_tile(Tile::door(false), Point::new(4, 2));
    let mut inpts = Inputs::new();
    assert!(map.get_map(Point::new(4, 2)).unwrap().cur_state().blocking);
    assert_eq!(start_frame(&mut map, &mut inpts, ACT_FUEL), Some(false));
    let door = map.get_map(Point::new(4, 2)).unwrap();
    assert!(door.active);
    assert!(!door.cur_state().blocking);
    assert!(map.get_ent(Point::new(4, 1)).unwrap().active);
    // The colour arrived at the goal through the port of its direction.
    assert_eq!(inpts.get(Point::new(4, 1)).unwrap()[7], Clr::Red);
    assert_eq!(end_frame(&mut map, &mut inpts, ACT_FUEL), Some(false));
    assert!(!map.get_map(Point::new(4, 2)).unwrap().active);
    assert!(inpts.get(Point::new(4, 1)).is_none());
}

#[test]
fn a_laser_of_the_wrong_colour_does_nothing() {
    let mut map = floor_grid(6, 4);
    map.insert_entity(Ent::laser(Point::new(1, 0), Clr::Blue), Point::new(0, 1));
    map.insert_entity(Ent::goal(Clr::Red), Point::new(4, 1));
    map.insert_tile(Tile::door(false), Point::new(4, 2));
    let mut inpts = Inputs::new();
    assert_eq!(start_frame(&mut map, &mut inpts, ACT_FUEL), Some(false));
    assert!(!map.get_map(Point::new(4, 2)).unwrap().active);
}

#[test]
fn walls_stop_lasers() {
    let mut map = floor_grid(6, 4);
    map.insert_entity(Ent::laser(Point::new(1, 0), Clr::Red), Point::new(0, 1));
    map.insert_tile(Tile::wall(), Point::new(2, 1));
    map.insert_entity(Ent::goal(Clr::Red), Point::new(4, 1));
    map.insert_tile(Tile::door(false), Point::new(4, 2));
    let mut inpts = Inputs::new();
    assert_eq!(start_frame(&mut map, &mut inpts, ACT_FUEL), Some(false));
    assert!(!map.get_map(Point::new(4, 2)).unwrap().active);
}

#[test]
fn carrying_out_commands() {
    let mut map = floor_grid(3, 3);
    map.insert_entity(Ent::player(), Point::new(0, 0));
    let cmds = vec![
        Cmd::ModifyTile(Point::new(1, 1), TileMod::SetActive),
        Cmd::MoveTo(Point::new(0, 0), Point::new(2, 2)),
        Cmd::Win,
    ];
    assert!(map.actuate_comms(&cmds, Point::new(0, 0)));
    assert!(map.get_map(Point::new(1, 1)).unwrap().active);
    assert!(map.get_ent(Point::new(2, 2)).unwrap().is_player());
    assert!(map.get_ent(Point::new(0, 0)).is_none());
}

#[test]
fn tile_activation_of_a_lever() {
    let map = floor_grid(3, 3);
    let lever = Tile::lever(false);
    let mut inpts = Inputs::new();
    let cmds = lever.activate(&map, ActSource::PlWalkOn, Point::new(1, 1), &mut inpts, ACT_FUEL).unwrap();
    // Inverting reaches both whatever entity and whatever tile is there.
    assert_eq!(cmds, vec![Cmd::ModifyEntity(Point::new(1, 1), EntMod::Flip), Cmd::ModifyTile(Point::new(1, 1), TileMod::Flip)]);
    let none = lever.activate(&map, ActSource::Laser, Point::new(1, 1), &mut inpts, ACT_FUEL).unwrap();
    assert!(none.is_empty());
}

fn corridor() -> bandit_lite::loader::puzzles::Puzzle {
    let mut ts = bandit_lite::loader::puzzles::ts::TileSet::new();
    ts.add_entity(Ent::player());
    ts.add_tile(Tile::new(StyleCh::with('.', Color::White), false, false));
    ts.add_tile(Tile::new(StyleCh::with('#', Color::White), true, true));
    let text = "w#w#w#w#w#\nw#w@w.w.w#\nw#w#w#w#w#\n";
    let default = Tile::new(StyleCh::with('.', Color::White), false, false);
    bandit_lite::loader::puzzles::load_pzl(text, &default, &ts, String::from("Corridor")).unwrap()
}

#[test]
fn a_turn_moves_and_resets_the_entities() {
    let p = corridor();
    let mut g = bandit_lite::loader::puzzles::start_puzzle(&p);
    assert!(play_turn(&mut g, Point::new(1, 0), ACT_FUEL));
    assert_eq!(g.player, Point::new(2, 1));
    assert_eq!(g.dir, Point::new(1, 0));
    assert!(!g.map.get_ent(Point::new(2, 1)).unwrap().updated);
    assert_eq!(g.moves.len(), 1);
    assert!(g.inpts.get(Point::new(2, 1)).is_none());
    // A blocked turn records no move.
    assert!(play_turn(&mut g, Point::new(0, 1), ACT_FUEL));
    assert_eq!(g.player, Point::new(2, 1));
    assert_eq!(g.moves.len(), 1);
}

#[test]
fn undo_takes_back_the_last_move() {
    let p = corridor();
    let mut g = bandit_lite::loader::puzzles::start_puzzle(&p);
    assert!(play_turn(&mut g, Point::new(1, 0), ACT_FUEL));
    assert!(play_turn(&mut g, Point::new(1, 0), ACT_FUEL));
    assert_eq!(g.player, Point::new(3, 1));
    assert!(undo(&mut g, &p, ACT_FUEL));
    assert_eq!(g.player, Point::new(2, 1));
    assert_eq!(g.moves.len(), 1);
    assert!(g.map.get_ent(Point::new(2, 1)).unwrap().is_player());
    assert!(g.map.get_ent(Point::new(3, 1)).is_none());
    assert!(undo(&mut g, &p, ACT_FUEL));
    assert_eq!(g.player, Point::new(1, 1));
    assert!(g.moves.is_empty());
}

#[test]
fn undo_with_no_move_changes_nothing() {
    let p = corridor();
    let mut g = bandit_lite::loader::puzzles::start_puzzle(&p);
    assert!(undo(&mut g, &p, ACT_FUEL));
    assert_eq!(g.player, Point::new(1, 1));
    assert!(g.moves.is_empty());
    assert!(g.map.get_ent(Point::new(1, 1)).unwrap().is_player());
}
