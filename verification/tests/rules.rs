use bandit_lite::beam::Clr;
use bandit_lite::editor::{editor_pl_pos, new_pack, save_edit};
use bandit_lite::entity::Ent;
use bandit_lite::grid::Grid;
use bandit_lite::loader::puzzles::ts::TileSet;
use bandit_lite::loader::puzzles::{load_pzl, start_puzzle, IoKind, Puzzle, PuzzlePack, PzlIOErr};
use bandit_lite::point::Point;
use bandit_lite::port::{Expr, ExprParseErr};
use bandit_lite::style::{Color, StyleCh};
use bandit_lite::{play_turn, Game, Tile, Vfx, ACT_FUEL};

fn md5_id(text: &str) -> u128 {
    u128::from_be_bytes(md5::compute(text.as_bytes()).0)
}

#[test]
fn expressions_from_characters() {
    assert!(matches!(Expr::from_char('3'), Ok(Expr::Port(3))));
    assert!(matches!(Expr::from_char('0'), Ok(Expr::Port(0))));
    assert!(matches!(Expr::from_char(' '), Ok(Expr::Null)));
    let red = Clr::Red.bits();
    assert!(matches!(Expr::from_char('r'), Ok(Expr::Clr(b)) if b == red));
    let white = Clr::White.bits();
    assert!(matches!(Expr::from_char('w'), Ok(Expr::Clr(b)) if b == white));
    assert!(matches!(Expr::from_char('x'), Err(ExprParseErr::InvalidLiteral)));
}

#[test]
fn file_errors_from_io_kinds() {
    assert_eq!(PzlIOErr::from_io_kind(IoKind::InvalidFilename), PzlIOErr::InvalidFile);
    assert_eq!(PzlIOErr::from_io_kind(IoKind::NotFound), PzlIOErr::CantAccess);
    assert_eq!(PzlIOErr::from_io_kind(IoKind::PermissionDenied), PzlIOErr::CantAccess);
    assert_eq!(PzlIOErr::from_io_kind(IoKind::InvalidData), PzlIOErr::InvalidFormat);
    assert_eq!(PzlIOErr::from_io_kind(IoKind::IsADirectory), PzlIOErr::InvalidFile);
    assert_eq!(PzlIOErr::from_io_kind(IoKind::Other), PzlIOErr::CantAccess);
}

#[test]
fn editor_player_position() {
    let mut p = Puzzle::new(String::from("p"));
    assert_eq!(editor_pl_pos(&p), None);
    p.pl_pos = Point::new(2, 3);
    assert_eq!(editor_pl_pos(&p), Some(Point::new(2, 3)));
}

#[test]
fn saving_an_edit() {
    let mut p = Puzzle::new(String::from("p"));
    p.data.insert_tile(Tile::new(StyleCh::with('.', Color::White), false, false), Point::new(1, 1));
    p.data.insert_entity(Ent::player(), Point::new(1, 1));
    assert!(!save_edit(&mut p, None));
    assert_eq!(p.id, 0);
    assert_eq!(p.pl_pos, Point::new(-69, -420));
    assert!(save_edit(&mut p, Some(Point::new(1, 1))));
    assert_eq!(p.pl_pos, Point::new(1, 1));
    let text = p.file_repr();
    assert_eq!(p.id, md5_id(&text));
    assert_ne!(p.id, 0);
}

#[test]
fn new_packs_are_empty() {
    let mut std_pzls = PuzzlePack::new(String::from("std"));
    std_pzls.add_pzl(Puzzle::new(String::from("a")));
    let p = new_pack(String::from("Mine"), &std_pzls);
    assert_eq!(p.name, "Mine");
    assert!(p.pzls.is_empty());
}

#[test]
fn showing_a_grid() {
    let mut g = Grid::new(2, 2);
    for y in 0..2 {
        for x in 0..2 {
            g.insert_tile(Tile::floor(), Point::new(x, y));
        }
    }
    let mut x = Ent::player();
    x.movable = false;
    g.insert_entity(x, Point::new(1, 0));
    let rows = g.show_rows();
    assert_eq!(rows.len(), 2);
    assert_eq!(rows[0][0].content, '.');
    // The bottom row comes last; an entity that cannot be pushed is on dark grey.
    assert_eq!(rows[1][1].content, '@');
    assert_eq!(rows[1][1].bg, Some(Color::DarkGrey));
    g.add_effect(Point::new(0, 1), Vfx::new_opaque_single(StyleCh::with('*', Color::Red)));
    assert_eq!(g.show_cell(Point::new(0, 1)), StyleCh::with('*', Color::Red));
    assert_eq!(g.show_rows()[0][0].content, '*');
    assert_eq!(g.show_cell(Point::new(1, 1)).content, '.');
    // Once shown, a one frame effect is gone.
    g.update_vfx();
    assert_eq!(g.show_cell(Point::new(0, 1)).content, '.');
}

#[test]
fn a_won_game_stays_won() {
    let mut ts = TileSet::new();
    ts.add_entity(Ent::player());
    let floor = Tile::new(StyleCh::with('.', Color::White), false, false);
    ts.add_tile(floor.clone());
    ts.add_tile(Tile::exit());
    let p = load_pzl("w.w@g!w.\n", &floor, &ts, String::from("exit")).unwrap();
    let mut g: Game = start_puzzle(&p);
    assert!(!g.won);
    assert!(play_turn(&mut g, Point::new(1, 0), ACT_FUEL));
    assert!(g.won);
    assert_eq!(g.player, Point::new(2, 0));
    assert!(play_turn(&mut g, Point::new(1, 0), ACT_FUEL));
    assert!(g.won);
    assert_eq!(g.player, Point::new(3, 0));
    assert!(play_turn(&mut g, Point::new(-1, 0), ACT_FUEL));
    assert!(g.won);
}

#[test]
fn tile_set_keys_by_character_and_colour() {
    let mut ts = TileSet::new();
    let a = Tile::new(StyleCh::with('x', Color::Rgb { r: 1, g: 2, b: 3 }), true, false);
    let b = Tile::new(StyleCh::with('x', Color::Rgb { r: 3, g: 2, b: 1 }), false, false);
    let c = Tile::new(StyleCh::with('x', Color::AnsiValue(7)), false, true);
    ts.add_tile(a);
    ts.add_tile(b);
    ts.add_tile(c);
    let get = |clr: Color| match ts.map(StyleCh::with('x', clr)) {
        Some(bandit_lite::loader::puzzles::ts::BanditObj::Tile(t)) => Some((t.cur_state().blocking, t.cur_state().opaque)),
        _ => None,
    };
    assert_eq!(get(Color::Rgb { r: 1, g: 2, b: 3 }), Some((true, false)));
    assert_eq!(get(Color::Rgb { r: 3, g: 2, b: 1 }), Some((false, false)));
    assert_eq!(get(Color::AnsiValue(7)), Some((false, true)));
    assert_eq!(get(Color::Red), None);
    assert!(ts.map(StyleCh::with('y', Color::AnsiValue(7))).is_none());
}

#[test]
fn inputs_by_point() {
    let mut i = bandit_lite::beam::Inputs::new();
    let c = [Clr::Red; 8];
    i.set(Point::new(-1, 2), c);
    i.set(Point::new(2, -1), [Clr::Blue; 8]);
    assert_eq!(i.get(Point::new(-1, 2)), Some(c));
    assert_eq!(i.get(Point::new(2, -1)), Some([Clr::Blue; 8]));
    assert_eq!(i.get(Point::new(2, 1)), None);
    i.clear();
    assert_eq!(i.get(Point::new(-1, 2)), None);
}

#[test]
fn diagonal_indices() {
    assert_eq!(bandit_lite::beam::Beam::new(Clr::Red, Point::new(1, 1)).diag_idx(), 1);
    assert_eq!(bandit_lite::beam::Beam::new(Clr::Red, Point::new(-1, -1)).diag_idx(), 1);
    assert_eq!(bandit_lite::beam::Beam::new(Clr::Red, Point::new(1, -1)).diag_idx(), 0);
    assert_eq!(bandit_lite::beam::Beam::new(Clr::Red, Point::new(1, 0)).diag_idx(), 0);
    assert_eq!(bandit_lite::beam::Beam::new(Clr::Red, Point::new(2, 3)).diag_idx(), 3);
    assert_eq!(bandit_lite::beam::Beam::new(Clr::Red, Point::new(-2, 3)).diag_idx(), usize::MAX - 1);
}
