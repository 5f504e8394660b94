use std::collections::HashSet;
use bandit_lite::entity::Ent;
use bandit_lite::loader::puzzles::ts::{BanditObj, TileSet};
use bandit_lite::loader::puzzles::{
    get_unlocked, load_pzl, load_pzls, map_ch, map_clr, pl_default_pos, sect_comps, start_puzzle, Puzzle, PuzzlePack,
    PzlIOErr,
};
use bandit_lite::point::Point;
use bandit_lite::style::{Color, StyleCh};
use bandit_lite::Tile;

fn set(ids: &[u128]) -> HashSet<u128> {
    ids.iter().copied().collect()
}

fn default_tile() -> Tile {
    Tile::new(StyleCh::with('.', Color::White), false, false)
}

fn tile_set() -> TileSet {
    let mut ts = TileSet::new();
    ts.add_entity(Ent::player());
    ts.add_tile(default_tile());
    ts.add_tile(Tile::new(StyleCh::with('#', Color::White), true, true));
    ts
}

fn md5_id(text: &str) -> u128 {
    u128::from_be_bytes(md5::compute(text.as_bytes()).0)
}

const SMALL: &str = "w#w#w#w#\nw#w@w.w#\nw#w#w#w#\n";

#[test]
fn load_small_puzzle() {
    let ts = tile_set();
    let p = load_pzl(SMALL, &default_tile(), &ts, String::from("Test")).unwrap();
    assert_eq!(p.data.wid(), 4);
    assert_eq!(p.data.hgt(), 3);
    assert_eq!(p.pl_pos, Point::new(1, 1));
    assert_eq!(p.name, "Test");
    assert_eq!(p.id, md5_id(SMALL));
    assert!(p.data.get_ent(Point::new(1, 1)).unwrap().is_player());
    assert!(p.data.get_ent(Point::new(1, 1)).unwrap().movable);
    assert_eq!(p.data.get_map(Point::new(1, 1)).unwrap().repr().content, '.');
    assert_eq!(p.data.get_map(Point::new(0, 0)).unwrap().repr().content, '#');
    assert_eq!(p.data.get_map(Point::new(2, 1)).unwrap().repr().content, '.');
    assert!(p.data.get_ent(Point::new(2, 1)).is_none());
    assert!(p.data.get_map(Point::new(4, 0)).is_none());
}

#[test]
fn upper_case_letter_makes_entity_immovable() {
    let ts = tile_set();
    let p = load_pzl("w#W@w.\n", &default_tile(), &ts, String::from("x")).unwrap();
    assert!(!p.data.get_ent(Point::new(1, 0)).unwrap().movable);
}

#[test]
fn upper_case_letter_carries_over_tiles() {
    let ts = tile_set();
    // The capital letter of a tile cell makes the next entity of the row immovable.
    let p = load_pzl("W.w@\n", &default_tile(), &ts, String::from("x")).unwrap();
    assert!(!p.data.get_ent(Point::new(1, 0)).unwrap().movable);
}

#[test]
fn rows_of_different_lengths() {
    let ts = tile_set();
    let p = load_pzl("w#w#w#\nw@\n", &default_tile(), &ts, String::from("x")).unwrap();
    assert_eq!(p.data.wid(), 3);
    assert_eq!(p.data.hgt(), 2);
    assert_eq!(p.pl_pos, Point::new(0, 0));
    assert!(p.data.get_map(Point::new(2, 0)).is_none());
    assert!(p.data.get_map(Point::new(2, 1)).is_some());
}

#[test]
fn last_player_wins() {
    let ts = tile_set();
    let p = load_pzl("w@w.\nw@w@\n", &default_tile(), &ts, String::from("x")).unwrap();
    // The top row is read last.
    assert_eq!(p.pl_pos, Point::new(0, 1));
}

#[test]
fn crlf_lines() {
    let ts = tile_set();
    let p = load_pzl("w#w@\r\nw#w#\r\n", &default_tile(), &ts, String::from("x")).unwrap();
    assert_eq!(p.data.wid(), 2);
    assert_eq!(p.data.hgt(), 2);
    assert_eq!(p.pl_pos, Point::new(1, 1));
}

#[test]
fn unknown_colour_letter_is_an_error() {
    let ts = tile_set();
    assert_eq!(load_pzl("z#w@\n", &default_tile(), &ts, String::from("x")).err(), Some(PzlIOErr::InvalidFormat));
}

#[test]
fn unknown_object_is_an_error() {
    let ts = tile_set();
    assert_eq!(load_pzl("w?w@\n", &default_tile(), &ts, String::from("x")).err(), Some(PzlIOErr::InvalidFormat));
    // The right character in the wrong colour is unknown too.
    assert_eq!(load_pzl("r#w@\n", &default_tile(), &ts, String::from("x")).err(), Some(PzlIOErr::InvalidFormat));
}

#[test]
fn missing_player_is_an_error() {
    let ts = tile_set();
    assert_eq!(load_pzl("w#w.\n", &default_tile(), &ts, String::from("x")).err(), Some(PzlIOErr::InvalidFormat));
    assert_eq!(load_pzl("", &default_tile(), &ts, String::from("x")).err(), Some(PzlIOErr::InvalidFormat));
}

#[test]
fn file_repr_gives_back_the_text() {
    let ts = tile_set();
    let p = load_pzl(SMALL, &default_tile(), &ts, String::from("Test")).unwrap();
    assert_eq!(p.file_repr(), SMALL);
}

#[test]
fn file_repr_marks_immovable_entities() {
    let ts = tile_set();
    let p = load_pzl("w#W@w.\n", &default_tile(), &ts, String::from("x")).unwrap();
    assert_eq!(p.file_repr(), "w#W@w.\n");
}

#[test]
fn update_sets_identifier_from_text() {
    let ts = tile_set();
    let mut p = load_pzl("w#w@\n", &default_tile(), &ts, String::from("x")).unwrap();
    p.id = 0;
    p.update();
    assert_eq!(p.id, md5_id("w#w@\n"));
}

#[test]
fn new_puzzle_is_empty() {
    let p = Puzzle::new(String::from("n"));
    assert_eq!(p.data.wid(), 7);
    assert_eq!(p.data.hgt(), 7);
    assert_eq!(p.pl_pos, Point::new(-69, -420));
    assert_eq!(p.pl_pos, pl_default_pos());
    assert_eq!(p.id, 0);
    assert_eq!(p.file_repr(), "\n\n\n\n\n\n\n");
}

#[test]
fn pack_of_puzzles() {
    let ts = tile_set();
    let text = "  My Pack \nFirst\nw#w@\n\nSecond\nw@w.\nw#w#\n\nLeftover\nw@\n";
    let pack = load_pzls(text, &default_tile(), &ts).unwrap();
    assert_eq!(pack.name, "My Pack");
    assert_eq!(pack.pzls.len(), 2);
    assert_eq!(pack.pzls[0].name, "First");
    assert_eq!(pack.pzls[0].id, md5_id("w#w@\n"));
    assert_eq!(pack.pzls[1].name, "Second");
    assert_eq!(pack.pzls[1].data.hgt(), 2);
    assert_eq!(pack.pzls[1].pl_pos, Point::new(0, 1));
}

#[test]
fn empty_pack_file() {
    let ts = tile_set();
    let pack = load_pzls("", &default_tile(), &ts).unwrap();
    assert_eq!(pack.name, "");
    assert_eq!(pack.pzls.len(), 0);
}

#[test]
fn pack_with_bad_puzzle_is_an_error() {
    let ts = tile_set();
    let text = "Pack\nGood\nw@\n\nBad\nw?w@\n\n";
    assert_eq!(load_pzls(text, &default_tile(), &ts).err(), Some(PzlIOErr::InvalidFormat));
}

#[test]
fn colour_letters() {
    assert_eq!(map_ch('r'), Ok(Color::Red));
    assert_eq!(map_ch('a'), Ok(Color::DarkRed));
    assert_eq!(map_ch('j'), Ok(Color::Grey));
    assert_eq!(map_ch('z'), Err(PzlIOErr::InvalidFormat));
    assert_eq!(map_clr(Color::DarkCyan), Ok('f'));
    assert_eq!(map_clr(Color::White), Ok('w'));
    assert_eq!(map_clr(Color::DarkGrey), Err(PzlIOErr::InvalidFormat));
    for c in ['n', 'r', 'g', 'b', 'y', 'm', 'c', 'w', 'a', 'd', 'e', 'f', 'h', 'i', 'j'] {
        assert_eq!(map_clr(map_ch(c).unwrap()), Ok(c));
    }
}

#[test]
fn error_messages() {
    assert_eq!(PzlIOErr::InvalidFile.message(), "Invalid File Type");
    assert_eq!(PzlIOErr::InvalidFormat.message(), "File is Corrupt");
    assert_eq!(PzlIOErr::FileBusy.message(), "File is Busy");
    assert_eq!(PzlIOErr::CantAccess.message(), "Can't Access File");
    assert_eq!(PzlIOErr::default(), PzlIOErr::InvalidFormat);
    assert_eq!(PzlIOErr::from_unit(()), PzlIOErr::InvalidFormat);
}

fn pack_with_ids(n: u128) -> PuzzlePack {
    let mut pack = PuzzlePack::new(String::from("p"));
    for i in 1..=n {
        let mut p = Puzzle::new(format!("{i}"));
        p.id = i;
        pack.add_pzl(p);
    }
    pack
}

#[test]
fn section_counts() {
    let pack = pack_with_ids(10);
    assert_eq!(sect_comps(&pack, &set(&[1, 2])), vec![2, 0, 0]);
    assert_eq!(sect_comps(&pack, &set(&[1, 2, 3, 4, 9, 10])), vec![3, 1, 2]);
    assert_eq!(sect_comps(&pack_with_ids(3), &set(&[2])), vec![1, 0]);
    assert_eq!(sect_comps(&pack_with_ids(0), &set(&[])), vec![0]);
    assert_eq!(sect_comps(&pack_with_ids(15), &set(&[15])), vec![0, 0, 0, 1]);
}

#[test]
fn section_counts_add_up() {
    let pack = pack_with_ids(20);
    let done = [1, 5, 7, 12, 14, 19, 20];
    let comps = sect_comps(&pack, &set(&done));
    assert_eq!(comps.iter().sum::<usize>(), done.len());
}

#[test]
fn unlocking_sections() {
    let pack = pack_with_ids(10);
    let mut expected = vec![true; 3];
    expected.extend(vec![false; 11]);
    assert_eq!(get_unlocked(&pack, &set(&[1, 2])), expected);
    let mut expected = vec![true; 8];
    expected.extend(vec![false; 6]);
    assert_eq!(get_unlocked(&pack, &set(&[1, 2, 3])), expected);
    assert_eq!(get_unlocked(&pack, &(1..=10).collect::<HashSet<u128>>()), vec![true; 14]);
    assert_eq!(get_unlocked(&pack_with_ids(0), &set(&[])), vec![true; 3]);
}

#[test]
fn unlocked_list_is_a_prefix() {
    let pack = pack_with_ids(30);
    let lckd = get_unlocked(&pack, &set(&[1, 2, 3, 4, 5, 6, 7]));
    assert_eq!(lckd.len(), 30);
    let first_locked = lckd.iter().position(|b| !*b).unwrap();
    assert!(lckd[first_locked..].iter().all(|b| !*b));
    assert_eq!(first_locked, 14);
    // The first section can always be played.
    assert!(get_unlocked(&pack, &set(&[]))[..3].iter().all(|b| *b));
}

#[test]
fn starting_a_puzzle() {
    let ts = tile_set();
    let p = load_pzl(SMALL, &default_tile(), &ts, String::from("Test")).unwrap();
    let g = start_puzzle(&p);
    assert_eq!(g.player, Point::new(1, 1));
    assert!(!g.won);
    assert!(g.moves.is_empty());
    assert_eq!(g.map.wid(), 4);
    assert!(g.map.get_ent(Point::new(1, 1)).unwrap().is_player());
}

#[test]
fn cloning_a_pack_keeps_its_puzzles() {
    let pack = pack_with_ids(4);
    let copy = pack.clone();
    assert_eq!(copy.name, pack.name);
    assert_eq!(copy.pzls.len(), 4);
    assert_eq!(copy.pzls[3].id, 4);
}

#[test]
fn tile_set_lookup() {
    let ts = tile_set();
    match ts.map(StyleCh::with('@', Color::White)) {
        Some(BanditObj::En(e)) => assert!(e.is_player()),
        _ => panic!("player not found"),
    }
    match ts.map(StyleCh::plain('#')) {
        Some(BanditObj::Tile(t)) => assert!(t.repr().content == '#'),
        _ => panic!("wall not found"),
    }
    assert!(ts.map(StyleCh::with('#', Color::Red)).is_none());
}

#[test]
fn written_text_loads_the_same_grid() {
    let ts = tile_set();
    let text = "w#w#w#w#\nw#W@w.w#\nw#w.w.w#\nw#w#w#w#\n";
    let p = load_pzl(text, &default_tile(), &ts, String::from("a")).unwrap();
    let q = load_pzl(&p.file_repr(), &default_tile(), &ts, String::from("b")).unwrap();
    assert_eq!(q.data.wid(), p.data.wid());
    assert_eq!(q.data.hgt(), p.data.hgt());
    assert_eq!(q.pl_pos, p.pl_pos);
    for y in 0..4 {
        for x in 0..5 {
            let pt = Point::new(x, y);
            assert_eq!(p.data.get_map(pt).map(|t| t.repr()), q.data.get_map(pt).map(|t| t.repr()));
            assert_eq!(p.data.get_ent(pt).map(|e| (e.ch, e.movable)), q.data.get_ent(pt).map(|e| (e.ch, e.movable)));
        }
    }
    assert!(!q.data.get_ent(Point::new(1, 2)).unwrap().movable);
}

#[test]
fn a_saved_pack_loads_back() {
    let ts = tile_set();
    let mut pack = PuzzlePack::new(String::from("Mine"));
    pack.add_pzl(load_pzl(SMALL, &default_tile(), &ts, String::from("First")).unwrap());
    pack.add_pzl(load_pzl("w#w#w#\nw#w.w@\n", &default_tile(), &ts, String::from("Second")).unwrap());
    let text = bandit_lite::loader::saver::pack_text(&pack);
    let back = load_pzls(&text, &default_tile(), &ts).unwrap();
    assert_eq!(back.name, "Mine");
    assert_eq!(back.pzls.len(), 2);
    for k in 0..2 {
        let (a, b) = (&pack.pzls[k], &back.pzls[k]);
        assert_eq!(a.name, b.name);
        assert_eq!(a.data.wid(), b.data.wid());
        assert_eq!(a.data.hgt(), b.data.hgt());
        assert_eq!(a.pl_pos, b.pl_pos);
        for y in 0..a.data.hgt() as i32 {
            for x in 0..a.data.wid() as i32 {
                let pt = Point::new(x, y);
                assert_eq!(a.data.get_map(pt).map(|t| t.repr()), b.data.get_map(pt).map(|t| t.repr()));
                assert_eq!(a.data.get_ent(pt).map(|e| e.ch), b.data.get_ent(pt).map(|e| e.ch));
            }
        }
    }
    let empty = load_pzls(&bandit_lite::loader::saver::pack_text(&PuzzlePack::new(String::from("Solo"))), &default_tile(), &ts).unwrap();
    assert_eq!(empty.name, "Solo");
    assert!(empty.pzls.is_empty());
}
