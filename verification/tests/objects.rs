use bandit_lite::entity::{Ent, EntType};
use bandit_lite::loader::puzzles::ts::BanditObj;
use bandit_lite::loader::{load_objs, ObjList};
use bandit_lite::port::{Expr, UnaryOp};
use bandit_lite::style::{Color, StyleCh};
use bandit_lite::Tile;

fn ent(o: &BanditObj) -> &Ent {
    match o {
        BanditObj::En(e) => e,
        BanditObj::Tile(_) => panic!("not an entity"),
    }
}

const MIRROR: &str = "┌,┐,┘,└ dark_cyan\n0 1\n3 !4\n\n";

#[test]
fn one_object_with_rotations() {
    let l = load_objs(MIRROR).unwrap();
    assert_eq!(l.len(), 1);
    assert_eq!(l.group_len(0), 4);
    let chs = ['┌', '┐', '┘', '└'];
    for (k, c) in chs.iter().enumerate() {
        let e = ent(l.get(0, k));
        assert_eq!(e.ch, StyleCh::with(*c, Color::DarkCyan));
        assert!(e.movable);
        assert!(!e.updated);
        assert!(e.handlers.is_empty());
    }
    match &ent(l.get(0, 0)).tp {
        EntType::Obj(g) => {
            assert!(matches!(g.0[0].out, Expr::Port(1)));
            match &g.0[3].out {
                Expr::UnaryOp(UnaryOp::Not, inner) => assert!(matches!(**inner, Expr::Port(4))),
                _ => panic!("wrong expression"),
            }
            assert!(matches!(g.0[1].out, Expr::Null));
        },
        _ => panic!("not an object"),
    }
    // One rotation moves port 0 to port 2, and the port it reads with it.
    match &ent(l.get(0, 1)).tp {
        EntType::Obj(g) => {
            assert!(matches!(g.0[2].out, Expr::Port(3)));
            assert!(matches!(g.0[0].out, Expr::Null));
        },
        _ => panic!("not an object"),
    }
}

#[test]
fn colour_names_ignore_case() {
    let l = load_objs("x DARK_Red\n\n").unwrap();
    assert_eq!(ent(l.get(0, 0)).ch, StyleCh::with('x', Color::DarkRed));
}

#[test]
fn unknown_colour_is_white() {
    let l = load_objs("x purple\n\n").unwrap();
    assert_eq!(ent(l.get(0, 0)).ch, StyleCh::with('x', Color::White));
}

#[test]
fn header_without_colour_is_skipped() {
    let l = load_objs("a,b\nx red\n0 r\n\n").unwrap();
    assert_eq!(l.len(), 1);
    assert_eq!(l.group_len(0), 1);
    assert_eq!(ent(l.get(0, 0)).ch, StyleCh::with('x', Color::Red));
}

#[test]
fn several_objects_and_unfinished_one() {
    let l = load_objs("a red\n\nb,c blue\n1 g\n\nd green\n2 1\n").unwrap();
    assert_eq!(l.len(), 2);
    assert_eq!(l.group_len(1), 2);
    assert_eq!(ent(l.get(1, 1)).ch, StyleCh::with('c', Color::Blue));
}

#[test]
fn unreadable_object_files() {
    // A blank line where a header is expected.
    assert!(load_objs("\n").is_none());
    // An empty character piece.
    assert!(load_objs("a,,b red\n\n").is_none());
    // A port that is not an octal digit.
    assert!(load_objs("a red\n8 1\n\n").is_none());
    // A line too short to hold an expression.
    assert!(load_objs("a red\n1\n\n").is_none());
    // An expression that does not parse.
    assert!(load_objs("a red\n1 (r\n\n").is_none());
    assert!(load_objs("a red\n1 q\n\n").is_none());
}

#[test]
fn empty_object_file() {
    assert_eq!(load_objs("").unwrap().len(), 0);
}

#[test]
fn object_list_building() {
    let mut l = ObjList::new();
    l.add_entity(Ent::player());
    l.add_tile(Tile::wall());
    l.add_entities(vec![Ent::player(), Ent::player()]);
    assert_eq!(l.len(), 3);
    assert_eq!(l.group_len(2), 2);
    assert!(matches!(l.get(1, 0), BanditObj::Tile(_)));
    assert!(l.get(0, 0).assume_en().is_player());
    assert_eq!(ObjList::default().len(), 0);
}

#[test]
fn the_editor_object_list() {
    let loaded = bandit_lite::loader::load_objs("X r\n0 1\n\n").unwrap();
    let objs = bandit_lite::loader::editor_objs(&loaded);
    assert_eq!(objs.len(), loaded.len() + 15);
    assert!(matches!(objs.get(0, 0), bandit_lite::loader::puzzles::ts::BanditObj::En(e) if e.is_player()));
    assert_eq!(objs.group_len(1), loaded.group_len(0));
    // Goal and laser groups of each colour but black follow.
    for c in 1..8usize {
        let g = loaded.len() + 2 * c - 1;
        assert_eq!(objs.group_len(g), 1);
        assert_eq!(objs.group_len(g + 1), 8);
        match objs.get(g + 1, 0) {
            bandit_lite::loader::puzzles::ts::BanditObj::En(e) => {
                assert_eq!(e.ch.content, bandit_lite::entity::Ent::laser(bandit_lite::beam::port_dir(1), bandit_lite::beam::Clr::from_u8(c as u8)).ch.content)
            }
            _ => panic!("not a laser"),
        }
    }
}
