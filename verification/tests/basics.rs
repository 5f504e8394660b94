use bandit_lite::beam::{port_dir, port_num, Beam, Clr};
use bandit_lite::entity::activation::{ActEffect, ActHandler, ActSource, Cond};
use bandit_lite::entity::{Ent, EntType, Move};
use bandit_lite::point::Point;
use bandit_lite::port::{Expr, ExprParseErr, Op, PortGrp, UnaryOp};
use bandit_lite::screen::{add_line, centre, completed_count, section_clr, section_headings, warn_height, warn_lines};
use bandit_lite::loader::puzzles::{Puzzle, PuzzlePack};
use bandit_lite::style::{Color, StyleCh};
use bandit_lite::text::{lines, parse_i32, parse_usize, split, trim};
use bandit_lite::{Tile, TileState, Vfx};

fn chars(s: &str) -> Vec<char> {
    s.chars().collect()
}

fn strings(v: Vec<Vec<char>>) -> Vec<String> {
    v.into_iter().map(|c| c.into_iter().collect()).collect()
}

#[test]
fn text_lines_like_std() {
    for s in ["", "a", "a\n", "a\nb", "a\r\nb\r\n", "\n\n", "a\r", "x\ny\n\nz"] {
        let expected: Vec<String> = s.lines().map(String::from).collect();
        assert_eq!(strings(lines(&chars(s))), expected);
    }
}

#[test]
fn text_split_and_trim_like_std() {
    for s in ["", "a b", " a  b ", "a", "::1:"] {
        let expected: Vec<String> = s.split(' ').map(String::from).collect();
        assert_eq!(strings(split(&chars(s), ' ')), expected);
        let expected: Vec<String> = s.split(':').map(String::from).collect();
        assert_eq!(strings(split(&chars(s), ':')), expected);
        assert_eq!(trim(&chars(s)).into_iter().collect::<String>(), s.trim());
    }
    assert_eq!(trim(&chars("\t x \u{3000}")).into_iter().collect::<String>(), "x");
}

#[test]
fn decimal_numbers_like_std() {
    for s in ["0", "42", "+7", "-7", "", "-", "+", "2147483647", "2147483648", "-2147483648", "-2147483649", "1x", "18446744073709551615", "18446744073709551616"] {
        assert_eq!(parse_i32(&chars(s)), s.parse::<i32>().ok());
        assert_eq!(parse_usize(&chars(s)), s.parse::<usize>().ok());
    }
}

#[test]
fn mixing_colours() {
    assert_eq!(Clr::Red.mix(Clr::Green), Clr::Yellow);
    assert_eq!(Clr::Blue.mix(Clr::Yellow), Clr::White);
    assert_eq!(Clr::Black.mix(Clr::Cyan), Clr::Cyan);
    assert_eq!(Clr::Magenta.mix(Clr::Magenta), Clr::Magenta);
    assert_eq!(Clr::Red.darker(), Color::DarkRed);
    assert_eq!(Clr::White.darker(), Color::Grey);
    assert_eq!(Clr::from_u8(0b011), Clr::Cyan);
    assert_eq!(Clr::Cyan.bits(), 0b011);
    assert_eq!(Clr::from_char('y'), Ok(Clr::Yellow));
    assert_eq!(Clr::from_char('q'), Err(()));
    assert_eq!(Clr::from_color(Color::DarkRed), Err(()));
    assert_eq!(Clr::Magenta.to_char(), 'm');
    assert_eq!(Clr::default(), Clr::Black);
}

#[test]
fn ports_and_directions() {
    assert_eq!(port_num(Point::new(1, -1)), 0);
    assert_eq!(port_num(Point::new(1, 0)), 7);
    assert_eq!(port_num(Point::new(0, 1)), 5);
    for i in 0..8 {
        let d = port_dir(i);
        // A beam leaving through a port enters the next object through the opposite port.
        assert_eq!(port_num(d.neg()), i);
    }
}

#[test]
fn beams() {
    let b = Beam::new(Clr::Red, Point::new(1, 1));
    assert!(b.is_diag());
    assert_eq!(b.diag_idx(), 1);
    assert_eq!(b.draw_char(), '╱');
    assert_eq!(Beam::new(Clr::Red, Point::new(-1, 1)).diag_idx(), 0);
    let s = Beam::new(Clr::Green, Point::new(0, 1));
    assert!(!s.is_diag());
    assert_eq!(s.draw_char(), '│');
    assert_eq!(Beam::new(Clr::Green, Point::new(1, 0)).draw_char(), '─');
    assert_eq!(s.styled_char(), StyleCh::with('│', Color::Green));
}

#[test]
fn parsing_expressions() {
    let e = Expr::parse_str("1|r").unwrap();
    assert!(matches!(e, Expr::Op(Op::Or, _, _)));
    let inputs = [Clr::Black, Clr::Blue, Clr::Black, Clr::Black, Clr::Black, Clr::Black, Clr::Black, Clr::Black];
    assert_eq!(e.eval(&inputs), 0b101);
    assert_eq!(Expr::parse_str("!1").unwrap().eval(&inputs), 0b110);
    assert_eq!(Expr::parse_str("P(y)").unwrap().eval(&inputs), 0);
    assert_eq!(Expr::parse_str("P(1&w)").unwrap().eval(&inputs), 0b001);
    assert_eq!(Expr::parse_str("(r^w)&c").unwrap().eval(&inputs), 0b011);
    assert_eq!(Expr::parse_str("").unwrap().eval(&inputs), 0);
    assert_eq!(Expr::parse_str("(r").err(), Some(ExprParseErr::UnclosedBracket));
    assert_eq!(Expr::parse_str("r+g").err(), Some(ExprParseErr::InvalidToken('+')));
    assert_eq!(Expr::parse_str("8").err(), Some(ExprParseErr::InvalidToken('8')));
    assert_eq!(Op::Xor.eval(0b110, 0b011), 0b101);
    assert_eq!(UnaryOp::Not.eval(0b001), 0b110);
    assert_eq!(UnaryOp::Primary.eval(0b010), 0b010);
    assert_eq!(UnaryOp::Primary.eval(0b011), 0);
    assert_eq!(Op::from_char('&'), Ok(Op::And));
    assert_eq!(Op::from_char('x'), Err(ExprParseErr::InvalidOp));
    assert_eq!(UnaryOp::from_char('P'), Ok(UnaryOp::Primary));
}

#[test]
fn objects_output_their_expressions() {
    let mut exprs = vec![Expr::Null; 8];
    exprs[3] = Expr::parse_str("7").unwrap();
    let g = PortGrp::from_exprs(exprs);
    let mut inputs = [Clr::Black; 8];
    inputs[7] = Clr::Green;
    let outs = g.determine(&inputs);
    assert_eq!(outs[3], Clr::Green);
    // A port that receives a colour outputs nothing.
    assert_eq!(outs[7], Clr::Black);
    let mut r = g;
    r.rotate_90();
    let mut rinputs = [Clr::Black; 8];
    rinputs[1] = Clr::Green;
    assert_eq!(r.determine(&rinputs)[5], Clr::Green);
}

#[test]
fn entities() {
    let p = Ent::player();
    assert!(p.is_player());
    assert_eq!(p.ch, StyleCh::with('@', Color::White));
    assert_eq!(p.priority(), 10);
    let l = Ent::laser(Point::new(1, 0), Clr::Red);
    assert!(matches!(l.tp, EntType::Laser));
    assert_eq!(l.ch, StyleCh::with('→', Color::Red));
    assert_eq!(l.priority(), 0);
    let g = Ent::goal(Clr::Blue);
    assert_eq!(g.ch, StyleCh::with('O', Color::Blue));
    let i = Ent::inact_laser(Point::new(0, 1), Clr::Green);
    assert_eq!(i.ch, StyleCh::with('↑', Color::DarkGreen));
    assert_eq!(Move::new(Point::new(0, 1)).0, Point::new(0, 1));
}

#[test]
fn entities_in_files() {
    let mut p = Ent::player();
    assert_eq!(p.file_repr(), "w@");
    p.movable = false;
    assert_eq!(p.file_repr(), "W@");
    assert_eq!(p.repr(), StyleCh::with('@', Color::White).on(Color::DarkGrey));
    assert_eq!(Ent::goal(Clr::Red).file_repr(), "rO");
}

#[test]
fn tiles() {
    let t = Tile::door(false);
    assert!(t.cur_state().blocking);
    let f = t.flipped().unwrap();
    assert!(!f.cur_state().blocking);
    assert!(Tile::floor().flipped().is_none());
    assert_eq!(Tile::floor().file_repr(), "w.");
    assert_eq!(Tile::wgtd_button().file_repr(), "d◻");
    assert!(Tile::water().cur_state().scary);
    assert_eq!(Tile::default().repr(), StyleCh::with(' ', Color::White));
    assert_eq!(TileState::default().ch, StyleCh::with(' ', Color::White));
    assert_eq!(Tile::single_door().repr().fg, Some(Color::Red));
}

#[test]
fn conditions_and_effects() {
    let c = Cond::TActive.not();
    assert!(matches!(c, Cond::Not(_)));
    let e = c.cond_ef(ActEffect::Prop);
    assert!(matches!(e, ActEffect::CondEf(_, _)));
    let ch = ActEffect::Win.chain(ActEffect::Null);
    assert!(matches!(ch, ActEffect::Chain(_, _)));
    let h = ActHandler::new(ActSource::Obj, ActEffect::MkActive);
    assert_eq!(h.src, ActSource::Obj);
    assert!(matches!(Cond::EActive.chain(Cond::TActive), Cond::Chain(_, _)));
}

#[test]
fn visual_effects() {
    let mut v = Vfx::new_opaque(StyleCh::plain('*'), 2);
    assert_eq!(v.modify_txt(&StyleCh::plain('a')), StyleCh::plain('*'));
    assert!(!v.update());
    assert!(v.update());
    let w = Vfx::opaque_with_clr('x', Color::Red, 1);
    assert_eq!(w.modify_txt(&StyleCh::plain('a')), StyleCh::with('x', Color::Red));
}

#[test]
fn screen_layout() {
    assert_eq!(centre(20), 50);
    assert_eq!(centre(0), 60);
    assert_eq!(centre(65556), 50);
    let line = add_line(Color::Red, "ab", 5);
    assert_eq!(line, vec![StyleCh::plain(' '), StyleCh::with('a', Color::Red), StyleCh::with('b', Color::Red), StyleCh::plain(' '), StyleCh::plain(' ')]);
    assert_eq!(add_line(Color::Red, "abc", 2).len(), 4);
}

#[test]
fn warnings() {
    let msg = "Are you sure? This cannot be undone!";
    assert_eq!(warn_lines(msg), vec!["Are you sure? This ", "cannot be undone!"]);
    assert_eq!(warn_height(msg), 36 / 18 + 5);
    assert_eq!(warn_lines("ab"), vec!["ab"]);
    assert_eq!(warn_lines(""), Vec::<String>::new());
}

#[test]
fn puzzle_list_sections() {
    assert_eq!(section_headings(5, true), vec![Some(0), None, None, Some(1), None]);
    assert_eq!(section_headings(3, false), vec![None, None, None]);
    let h = section_headings(1003, true);
    assert_eq!(h[1002], Some(2));
    assert_eq!(h.iter().filter(|x| x.is_some()).count(), 3);
    assert_eq!(section_clr(0), Color::Green);
    assert_eq!(section_clr(4), Color::DarkMagenta);
    let mut pack = PuzzlePack::new(String::from("p"));
    for i in 0..4u128 {
        let mut p = Puzzle::new(String::new());
        p.id = i;
        pack.add_pzl(p);
    }
    let done: std::collections::HashSet<u128> = [1, 3, 9].into_iter().collect();
    assert_eq!(completed_count(&pack, &done), 2);
}
