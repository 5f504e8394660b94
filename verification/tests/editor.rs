use bandit_lite::beam::{port_dir, Clr};
use bandit_lite::editor::{default_pos, outline, Counter, EditEvent, EditExit, Key, LevelEditor};
use bandit_lite::entity::Ent;
use bandit_lite::grid::Grid;
use bandit_lite::loader::ObjList;
use bandit_lite::point::Point;
use bandit_lite::style::{Color, StyleCh};
use bandit_lite::Tile;

fn objs() -> ObjList {
    let mut l = ObjList::new();
    l.add_entity(Ent::player());
    l.add_tile(Tile::wall());
    let mut lasers = Vec::new();
    for p in 0..8 {
        lasers.push(Ent::laser(port_dir((p + 1) % 8), Clr::Red));
    }
    l.add_entities(lasers);
    l
}

fn editor(wid: usize, hgt: usize) -> LevelEditor {
    let mut g = Grid::new(wid, hgt);
    outline(&mut g);
    LevelEditor::new(g)
}

fn content_at(e: &LevelEditor, p: Point) -> char {
    e.data.get_map(p).unwrap().repr().content
}

#[test]
fn outlining_a_grid() {
    let mut g = Grid::new(4, 3);
    g.insert_tile(Tile::exit(), Point::new(1, 1));
    outline(&mut g);
    for x in 0..4 {
        assert_eq!(g.get_map(Point::new(x, 0)).unwrap().repr().content, '#');
        assert_eq!(g.get_map(Point::new(x, 2)).unwrap().repr().content, '#');
    }
    assert_eq!(g.get_map(Point::new(0, 1)).unwrap().repr().content, '#');
    assert_eq!(g.get_map(Point::new(3, 1)).unwrap().repr().content, '#');
    // The useful tile stays; the empty inner point gets a floor.
    assert_eq!(g.get_map(Point::new(1, 1)).unwrap().repr().content, '!');
    assert_eq!(g.get_map(Point::new(2, 1)).unwrap().repr().content, '.');
    assert!(g.get_map(Point::new(4, 1)).is_none());
}

#[test]
fn placing_the_player() {
    let l = objs();
    let mut e = editor(5, 5);
    assert_eq!(e.cursor, Point::new(1, 1));
    assert_eq!(e.handle_key(&l, Key::Enter), EditEvent::Null);
    assert_eq!(e.pl_pos, Some(Point::new(1, 1)));
    assert!(e.data.get_ent(Point::new(1, 1)).unwrap().is_player());
    assert_eq!(content_at(&e, Point::new(1, 1)), '.');
    // A second player is not placed.
    assert_eq!(e.handle_key(&l, Key::Right), EditEvent::Null);
    assert_eq!(e.handle_key(&l, Key::Enter), EditEvent::Null);
    assert!(e.data.get_ent(Point::new(2, 1)).is_none());
}

#[test]
fn cursor_stays_inside_the_border() {
    let l = objs();
    let mut e = editor(4, 4);
    e.handle_key(&l, Key::Left);
    assert_eq!(e.cursor, Point::new(1, 1));
    e.handle_key(&l, Key::Char('d'));
    assert_eq!(e.cursor, Point::new(2, 1));
    e.handle_key(&l, Key::Char('l'));
    assert_eq!(e.cursor, Point::new(2, 1));
    e.handle_key(&l, Key::Up);
    assert_eq!(e.cursor, Point::new(2, 2));
    e.handle_key(&l, Key::Char('k'));
    assert_eq!(e.cursor, Point::new(2, 2));
    e.handle_key(&l, Key::Char('s'));
    assert_eq!(e.cursor, Point::new(2, 1));
}

#[test]
fn tiles_replace_entities() {
    let l = objs();
    let mut e = editor(5, 5);
    e.handle_key(&l, Key::Enter);
    e.cur_idx = 1;
    e.handle_key(&l, Key::Enter);
    assert_eq!(content_at(&e, Point::new(1, 1)), '#');
    assert!(e.data.get_ent(Point::new(1, 1)).is_none());
    assert_eq!(e.pl_pos, None);
}

#[test]
fn deleting() {
    let l = objs();
    let mut e = editor(5, 5);
    e.handle_key(&l, Key::Enter);
    e.handle_key(&l, Key::Backspace);
    assert!(e.data.get_ent(Point::new(1, 1)).is_none());
    assert_eq!(e.pl_pos, None);
    assert!(e.just_deleted);
    // With no entity, the tile becomes a floor.
    e.cur_idx = 1;
    e.handle_key(&l, Key::Enter);
    assert!(!e.just_deleted);
    e.handle_key(&l, Key::Backspace);
    assert_eq!(content_at(&e, Point::new(1, 1)), '.');
}

#[test]
fn toggling_movable() {
    let l = objs();
    let mut e = editor(5, 5);
    e.handle_key(&l, Key::Enter);
    e.handle_key(&l, Key::Char('m'));
    assert!(!e.data.get_ent(Point::new(1, 1)).unwrap().movable);
    e.handle_key(&l, Key::Char('m'));
    assert!(e.data.get_ent(Point::new(1, 1)).unwrap().movable);
}

#[test]
fn rotating_the_object() {
    let l = objs();
    let mut e = editor(5, 5);
    e.cur_idx = 2;
    e.handle_key(&l, Key::Char('i'));
    assert_eq!(e.cur_rot, 7);
    e.handle_key(&l, Key::Char('y'));
    assert_eq!(e.cur_rot, 0);
    e.handle_key(&l, Key::Char('y'));
    assert_eq!(e.cur_rot, 1);
    e.handle_key(&l, Key::Enter);
    assert_eq!(e.data.get_ent(Point::new(1, 1)).unwrap().ch, l.get(2, 1).assume_en().ch);
    assert_eq!(e.handle_key(&l, Key::Char('o')), EditEvent::PickObj);
    assert_eq!(e.cur_rot, 0);
}

#[test]
fn menu_and_other_keys() {
    let l = objs();
    let mut e = editor(5, 5);
    assert_eq!(e.handle_key(&l, Key::Esc), EditEvent::Menu);
    assert_eq!(e.handle_key(&l, Key::Char('z')), EditEvent::Null);
    assert_eq!(e.handle_key(&l, Key::Other), EditEvent::Null);
    assert_eq!(e.cursor, Point::new(1, 1));
}

#[test]
fn drawing_the_editor() {
    let l = objs();
    let mut e = editor(5, 4);
    e.handle_key(&l, Key::Enter);
    e.handle_key(&l, Key::Right);
    let rows = e.draw_rows(&l, false);
    assert_eq!(rows.len(), 2);
    assert_eq!(rows[0].len(), 3);
    assert_eq!(rows[1][0], StyleCh::with('@', Color::White));
    assert_eq!(rows[1][1], StyleCh::with('.', Color::White));
    let rows = e.draw_rows(&l, true);
    // The player is placed, so the cursor shows what is under it.
    assert_eq!(rows[1][1], StyleCh::plain('.').on(Color::DarkCyan));
    e.cur_idx = 1;
    let rows = e.draw_rows(&l, true);
    assert_eq!(rows[1][1], StyleCh::plain('#').on(Color::DarkCyan));
}

#[test]
fn immovable_entities_are_drawn_on_grey() {
    let l = objs();
    let mut e = editor(3, 3);
    e.handle_key(&l, Key::Enter);
    e.handle_key(&l, Key::Char('m'));
    let rows = e.draw_rows(&l, false);
    assert_eq!(rows, vec![vec![StyleCh::with('@', Color::White).on(Color::DarkGrey)]]);
}

#[test]
fn resizing() {
    let l = objs();
    let mut e = editor(5, 5);
    e.handle_key(&l, Key::Enter);
    e.resize(7, 6);
    assert_eq!(e.data.wid(), 7);
    assert_eq!(e.data.hgt(), 6);
    assert!(e.data.get_ent(Point::new(1, 1)).is_some());
    assert_eq!(e.cursor, Point::new(1, 1));
}

#[test]
fn editor_constants() {
    assert_eq!(default_pos(), Point::new(60, 5));
    assert_ne!(EditExit::Save, EditExit::Quit);
    assert_ne!(EditExit::Test, EditExit::Quit);
}

#[test]
fn counter_bounds() {
    let mut c = Counter::new(3).with_min(6).with_max(16);
    assert_eq!(c.value, 0);
    c.set_value(7);
    assert_eq!(c.value, 7);
    c.set_value(5);
    assert_eq!(c.value, 7);
    c.set_value(17);
    assert_eq!(c.value, 7);
    c.set_value(16);
    assert_eq!(c.value, 16);
}

#[test]
fn counter_messages() {
    let mut c = Counter::new(1).with_min(6).with_max(16);
    c.set_value(7);
    assert!(c.receive("1:1"));
    assert_eq!(c.value, 8);
    assert!(c.receive("1:-1"));
    assert_eq!(c.value, 7);
    assert!(c.receive("0:1"));
    assert_eq!(c.value, 7);
    assert!(c.receive("clr"));
    assert!(c.receive("1"));
    assert_eq!(c.value, 7);
    assert!(c.receive("+1:+5"));
    assert_eq!(c.value, 12);
    assert!(c.receive("1:10"));
    assert_eq!(c.value, 12);
    assert!(!c.receive("1:x"));
    assert_eq!(c.value, 12);
    let mut d = Counter::new(0);
    d.set_value(i32::MAX);
    assert!(!d.receive("0:1"));
    assert_eq!(d.value, i32::MAX);
}

#[test]
fn editing_with_an_empty_object_list() {
    let objs = ObjList::new();
    let mut e = LevelEditor::new(Grid::new(7, 7));
    assert_eq!(e.handle_key(&objs, Key::Left), EditEvent::Null);
    assert_eq!(e.cursor, Point::new(1, 1));
    assert_eq!(e.handle_key(&objs, Key::Backspace), EditEvent::Null);
    assert_eq!(e.data.get_map(Point::new(1, 1)).unwrap().repr(), Tile::floor().repr());
    assert!(e.data.get_map(Point::new(0, 1)).is_none());
    assert_eq!(e.handle_key(&objs, Key::Right), EditEvent::Null);
    assert_eq!(e.cursor, Point::new(2, 1));
}

#[test]
fn turning_round_a_group() {
    let l = objs();
    let mut e = editor(5, 5);
    e.cur_idx = 2;
    e.cur_rot = 7;
    e.handle_key(&l, Key::Char('y'));
    assert_eq!(e.cur_rot, 0);
    e.handle_key(&l, Key::Char('i'));
    assert_eq!(e.cur_rot, 7);
    e.handle_key(&l, Key::Char('i'));
    assert_eq!(e.cur_rot, 6);
    e.handle_key(&l, Key::Char('y'));
    assert_eq!(e.cur_rot, 7);
}

#[test]
fn the_recorded_player_follows_the_player() {
    let l = objs();
    let mut e = editor(5, 5);
    e.handle_key(&l, Key::Enter);
    assert_eq!(e.pl_pos, Some(Point::new(1, 1)));
    // A second player is not placed.
    e.handle_key(&l, Key::Right);
    e.handle_key(&l, Key::Enter);
    assert!(e.data.get_ent(Point::new(2, 1)).is_none());
    // A tile put over the player removes it and forgets its position.
    e.handle_key(&l, Key::Left);
    e.cur_idx = 1;
    e.handle_key(&l, Key::Enter);
    assert_eq!(e.pl_pos, None);
    assert!(e.data.get_ent(Point::new(1, 1)).is_none());
}

#[test]
fn rotating_directly() {
    let l = objs();
    let mut e = editor(5, 5);
    e.cur_idx = 2;
    e.cur_rot = 7;
    e.rot(&l, true);
    assert_eq!(e.cur_rot, 0);
    e.rot(&l, false);
    assert_eq!(e.cur_rot, 7);
    e.cur_idx = 0;
    e.cur_rot = 0;
    e.rot(&l, false);
    assert_eq!(e.cur_rot, 0);
}

#[test]
fn keys_as_steps() {
    assert_eq!(bandit_lite::editor::key_step(Key::Char('h')), Some(Point::new(-1, 0)));
    assert_eq!(bandit_lite::editor::key_step(Key::Up), Some(Point::new(0, 1)));
    assert_eq!(bandit_lite::editor::key_step(Key::Char('j')), Some(Point::new(0, -1)));
    assert_eq!(bandit_lite::editor::key_step(Key::Char('u')), None);
}
