use bandit_lite::loader::puzzles::{Puzzle, PuzzlePack};
use bandit_lite::loader::saver::{
    hex_string, is_secret, load_pzl_save, pack_text, parse_hex, save_set_text, save_text, set_ids, SUPER_SECRET_NAME,
};
use bandit_lite::point::Point;
use bandit_lite::style::{Color, StyleCh};
use bandit_lite::Tile;
use std::collections::HashSet;

fn set(ids: &[u128]) -> HashSet<u128> {
    ids.iter().copied().collect()
}

fn chars(s: &str) -> Vec<char> {
    s.chars().collect()
}

#[test]
fn hex_numbers() {
    assert_eq!(parse_hex(&chars("ff")), Some(255));
    assert_eq!(parse_hex(&chars("FF")), Some(255));
    assert_eq!(parse_hex(&chars("+1a")), Some(26));
    assert_eq!(parse_hex(&chars("0")), Some(0));
    assert_eq!(parse_hex(&chars("")), None);
    assert_eq!(parse_hex(&chars("+")), None);
    assert_eq!(parse_hex(&chars("-1")), None);
    assert_eq!(parse_hex(&chars("g")), None);
    assert_eq!(parse_hex(&chars("ffffffffffffffffffffffffffffffff")), Some(u128::MAX));
    assert_eq!(parse_hex(&chars("100000000000000000000000000000000")), None);
    assert_eq!(parse_hex(&chars("000000000000000000000000000000000001")), Some(1));
}

#[test]
fn hex_matches_std() {
    for s in ["d39b1b9ee3753f659fb0d1900b2136d1", "7", "+beef", "12x", "", "abcdef0123456789"] {
        assert_eq!(parse_hex(&chars(s)), u128::from_str_radix(s, 16).ok());
    }
}

#[test]
fn hex_writing() {
    assert_eq!(hex_string(0).iter().collect::<String>(), "0");
    assert_eq!(hex_string(255).iter().collect::<String>(), "ff");
    assert_eq!(hex_string(SUPER_SECRET_NAME).iter().collect::<String>(), format!("{:x}", SUPER_SECRET_NAME));
}

#[test]
fn save_file_text() {
    assert_eq!(save_text(&[0x1a, 0xff]), "1a ff ");
    assert_eq!(save_text(&[]), "");
}

#[test]
fn reading_the_save_file() {
    assert_eq!(load_pzl_save("1a ff "), Some(set(&[0x1a, 0xff])));
    assert_eq!(load_pzl_save("  1a\n+2 3 \n"), Some(set(&[0x1a, 2, 3])));
    assert_eq!(load_pzl_save("1a 1a"), Some(set(&[0x1a])));
    assert_eq!(load_pzl_save(""), Some(set(&[])));
}

#[test]
fn unreadable_save_file() {
    // An empty line has one empty piece, which is no number.
    assert_eq!(load_pzl_save("\n"), None);
    assert_eq!(load_pzl_save("1a  ff"), None);
    assert_eq!(load_pzl_save("xyz"), None);
}

#[test]
fn save_roundtrip() {
    let ids = vec![0, 1, 0xabcdef, u128::MAX, SUPER_SECRET_NAME, 16];
    assert_eq!(load_pzl_save(&save_text(&ids)), Some(set(&ids)));
}

#[test]
fn saving_a_set() {
    let done = set(&[3, 0xabc, 17]);
    let ids = set_ids(&done);
    assert_eq!(ids.len(), 3);
    assert_eq!(ids.iter().copied().collect::<HashSet<u128>>(), done);
    let text = save_set_text(&done);
    assert_eq!(text.len(), "3 abc 11 ".len());
    assert_eq!(load_pzl_save(&text), Some(done));
    assert_eq!(save_set_text(&set(&[])), "");
}

#[test]
fn secret_names() {
    for s in ["", "Standard", "my pack", "secret"] {
        let expected = u128::from_be_bytes(md5::compute(s.as_bytes()).0) == SUPER_SECRET_NAME;
        assert_eq!(is_secret(s), expected);
        assert!(!is_secret(s));
    }
}

#[test]
fn pack_file_text() {
    let mut pack = PuzzlePack::new(String::from("pack"));
    let mut p = Puzzle::new(String::from("One"));
    p.data.set_size(2, 1);
    p.data.insert_tile(Tile::new(StyleCh::with('#', Color::White), true, true), Point::new(0, 0));
    p.data.insert_tile(Tile::new(StyleCh::with('.', Color::Red), false, false), Point::new(1, 0));
    pack.add_pzl(p);
    let mut q = Puzzle::new(String::from("Two"));
    q.data.set_size(0, 0);
    pack.add_pzl(q);
    assert_eq!(pack_text(&pack), "pack\nOne\nw#r.\n\nTwo\n\n");
    assert_eq!(pack_text(&PuzzlePack::new(String::from("empty"))), "empty\n");
}
