//! Loading objects and puzzles from their textual form.

use vstd::prelude::*;
use crossterm::style::Color as CtColor;
use crate::Tile;
use crate::entity::{Ent, EntType};
use crate::beam::{Clr, port_dir, spec_port_dir};
use crate::port::{Expr, Port, PortGrp, spec_parse, lemma_parse_wf, lemma_rotated_wf};
use crate::style::{Color, StyleCh};
use crate::text::{chars_of, lines, spec_lines, split, spec_split, slice_chars, string_from_chars, spec_ascii_lower,
    lemma_split_from_len};
use puzzles::ts::BanditObj;

pub mod puzzles;
pub mod saver;

verus! {

/// The terminal colour with the given name, as the terminal back end reads colour names.
pub uninterp spec fn color_named(name: Seq<char>) -> Color;

/// Every character is ASCII.
pub open spec fn is_ascii_seq(s: Seq<char>) -> bool {
    forall|i: int| 0 <= i < s.len() ==> (#[trigger] s[i] as u32) < 128
}

/// The colour an ASCII name stands for, in any mix of cases: one of the seventeen named
/// colours, white for any other name.
pub open spec fn ascii_color_named(name: Seq<char>) -> Color {
    let l = name.map_values(|c: char| spec_ascii_lower(c));
    if l == seq!['r', 'e', 's', 'e', 't'] {
        Color::Reset
    } else if l == seq!['b', 'l', 'a', 'c', 'k'] {
        Color::Black
    } else if l == seq!['d', 'a', 'r', 'k', '_', 'g', 'r', 'e', 'y'] {
        Color::DarkGrey
    } else if l == seq!['r', 'e', 'd'] {
        Color::Red
    } else if l == seq!['d', 'a', 'r', 'k', '_', 'r', 'e', 'd'] {
        Color::DarkRed
    } else if l == seq!['g', 'r', 'e', 'e', 'n'] {
        Color::Green
    } else if l == seq!['d', 'a', 'r', 'k', '_', 'g', 'r', 'e', 'e', 'n'] {
        Color::DarkGreen
    } else if l == seq!['y', 'e', 'l', 'l', 'o', 'w'] {
        Color::Yellow
    } else if l == seq!['d', 'a', 'r', 'k', '_', 'y', 'e', 'l', 'l', 'o', 'w'] {
        Color::DarkYellow
    } else if l == seq!['b', 'l', 'u', 'e'] {
        Color::Blue
    } else if l == seq!['d', 'a', 'r', 'k', '_', 'b', 'l', 'u', 'e'] {
        Color::DarkBlue
    } else if l == seq!['m', 'a', 'g', 'e', 'n', 't', 'a'] {
        Color::Magenta
    } else if l == seq!['d', 'a', 'r', 'k', '_', 'm', 'a', 'g', 'e', 'n', 't', 'a'] {
        Color::DarkMagenta
    } else if l == seq!['c', 'y', 'a', 'n'] {
        Color::Cyan
    } else if l == seq!['d', 'a', 'r', 'k', '_', 'c', 'y', 'a', 'n'] {
        Color::DarkCyan
    } else if l == seq!['g', 'r', 'e', 'y'] {
        Color::Grey
    } else {
        Color::White
    }
}

/// Read a colour name (`crossterm::style::Color::from_str`). The terminal back end lower cases
/// the name (by Unicode rules) and matches it against the names of its seventeen named colours,
/// giving white for any other name; it never fails. For an ASCII name this is stated here in
/// full; for other names the result is only named, as Unicode lower casing is not written out.
#[verifier::external_body]
fn color_from_name(name: &str) -> (c: Color)
    ensures
        c == color_named(name@),
        is_ascii_seq(name@) ==> c == ascii_color_named(name@),
{
    match name.parse::<CtColor>().unwrap() {
        CtColor::Reset => Color::Reset, CtColor::Black => Color::Black, CtColor::DarkGrey => Color::DarkGrey,
        CtColor::Red => Color::Red, CtColor::DarkRed => Color::DarkRed, CtColor::Green => Color::Green,
        CtColor::DarkGreen => Color::DarkGreen, CtColor::Yellow => Color::Yellow, CtColor::DarkYellow => Color::DarkYellow,
        CtColor::Blue => Color::Blue, CtColor::DarkBlue => Color::DarkBlue, CtColor::Magenta => Color::Magenta,
        CtColor::DarkMagenta => Color::DarkMagenta, CtColor::Cyan => Color::Cyan, CtColor::DarkCyan => Color::DarkCyan,
        CtColor::White => Color::White, CtColor::Grey => Color::Grey,
        CtColor::Rgb { r, g, b } => Color::Rgb { r, g, b }, CtColor::AnsiValue(v) => Color::AnsiValue(v),
    }
}

/// A list of objects: groups of rotations of one object.
pub struct ObjList(Vec<Vec<BanditObj>>);

impl View for ObjList {
    type V = Seq<Seq<BanditObj>>;

    closed spec fn view(&self) -> Seq<Seq<BanditObj>> {
        self.0@.map_values(|g: Vec<BanditObj>| g@)
    }
}

impl ObjList {
    /// Every object of the list is well formed.
    #[verifier::type_invariant]
    closed spec fn inv(self) -> bool {
        forall|i: int, j: int| 0 <= i < self.0@.len() && 0 <= j < self.0@[i]@.len() ==> (#[trigger] self.0@[i]@[j]).wf()
    }

    /// Create an empty object list.
    pub fn new() -> (l: Self)
        ensures
            l@ == Seq::<Seq<BanditObj>>::empty(),
    {
        let l = ObjList(Vec::new());
        assert(l@ =~= Seq::<Seq<BanditObj>>::empty());
        l
    }

    fn push_group(&mut self, g: Vec<BanditObj>)
        requires
            forall|j: int| 0 <= j < g@.len() ==> (#[trigger] g@[j]).wf(),
        ensures
            final(self)@ == old(self)@.push(g@),
    {
        proof {
            use_type_invariant(&*self);
        }
        let mut v = Vec::new();
        std::mem::swap(&mut v, &mut self.0);
        let ghost before = v@;
        v.push(g);
        assert(v@.map_values(|x: Vec<BanditObj>| x@) =~= before.map_values(|x: Vec<BanditObj>| x@).push(g@));
        self.0 = v;
    }

    /// Add a single tile to the end of the list.
    pub fn add_tile(&mut self, tile: Tile)
        requires
            tile.wf(),
        ensures
            final(self)@ == old(self)@.push(seq![BanditObj::Tile(tile)]),
    {
        let mut g = Vec::new();
        g.push(BanditObj::Tile(tile));
        assert(g@ =~= seq![BanditObj::Tile(tile)]);
        self.push_group(g);
    }

    /// Add a single entity to the end of the list.
    pub fn add_entity(&mut self, ent: Ent)
        requires
            ent.wf(),
        ensures
            final(self)@ == old(self)@.push(seq![BanditObj::En(ent)]),
    {
        let mut g = Vec::new();
        g.push(BanditObj::En(ent));
        assert(g@ =~= seq![BanditObj::En(ent)]);
        self.push_group(g);
    }

    /// Add some entities to the list, assuming they are rotations of each other.
    pub fn add_entities(&mut self, ents: Vec<Ent>)
        requires
            forall|j: int| 0 <= j < ents@.len() ==> (#[trigger] ents@[j]).wf(),
        ensures
            final(self)@ == old(self)@.push(ents@.map_values(|e: Ent| BanditObj::En(e))),
    {
        let mut ents = ents;
        let ghost all = ents@;
        let mut g: Vec<BanditObj> = Vec::new();
        let mut i: usize = 0;
        let n = ents.len();
        while i < n
            invariant
                n == all.len(),
                i <= n,
                ents@ == all.skip(i as int),
                g@ == all.take(i as int).map_values(|e: Ent| BanditObj::En(e)),
                forall|j: int| 0 <= j < all.len() ==> (#[trigger] all[j]).wf(),
            decreases n - i,
        {
            let e = ents.remove(0);
            g.push(BanditObj::En(e));
            i = i + 1;
            assert(ents@ =~= all.skip(i as int));
            assert(g@ =~= all.take(i as int).map_values(|e: Ent| BanditObj::En(e)));
        }
        assert(all.take(n as int) =~= all);
        self.push_group(g);
    }

    /// The number of groups.
    pub fn len(&self) -> (n: usize)
        ensures
            n == self@.len(),
    {
        self.0.len()
    }

    /// The number of objects in group `i`.
    pub fn group_len(&self, i: usize) -> (n: usize)
        requires
            i < self@.len(),
        ensures
            n == self@[i as int].len(),
    {
        self.0[i].len()
    }

    /// Object `j` of group `i`.
    pub fn get(&self, i: usize, j: usize) -> (o: &BanditObj)
        requires
            i < self@.len(),
            j < self@[i as int].len(),
        ensures
            *o == self@[i as int][j as int],
            o.wf(),
    {
        proof {
            use_type_invariant(self);
        }
        &self.0[i][j]
    }
}

impl Default for ObjList {
    fn default() -> (l: Self)
        ensures
            l@ == Seq::<Seq<BanditObj>>::empty(),
    {
        Self::new()
    }
}


/// The object characters a header names: the first character of each comma separated piece of
/// its first part; `None` when a piece is empty.
pub open spec fn header_chars(part: Seq<char>) -> Option<Seq<char>> {
    let ps = spec_split(part, ',');
    if forall|k: int| 0 <= k < ps.len() ==> (#[trigger] ps[k]).len() > 0 {
        Some(Seq::new(ps.len(), |k: int| ps[k][0]))
    } else {
        None
    }
}

/// A header line of an object definition, split at spaces: the characters of its first part
/// and, if there is a second part, the name of the colour. `None` when it cannot be read;
/// `Some(None)` when it names no colour, which leaves the definition unstarted.
pub open spec fn spec_header(line: Seq<char>) -> Option<Option<(Seq<char>, Seq<char>)>> {
    let parts = spec_split(line, ' ');
    match header_chars(parts[0]) {
        None => None,
        Some(cs) => if parts.len() >= 2 {
            Some(Some((cs, parts[1])))
        } else {
            Some(None)
        },
    }
}

/// An expression line of an object definition: an octal digit naming a port, one more ASCII
/// character, then the port's expression.
pub open spec fn spec_expr_line(line: Seq<char>) -> Option<(int, Expr)> {
    if line.len() >= 2 && '0' <= line[0] && line[0] <= '7' && (line[1] as u32) < 128 {
        match spec_parse(line.skip(2)) {
            Ok(e) => Some((line[0] as int - 48, e)),
            Err(_) => None,
        }
    } else {
        None
    }
}

/// Eight empty expressions.
pub open spec fn null_exprs() -> Seq<Expr> {
    Seq::new(8, |i: int| Expr::Null)
}

/// The characters, drawn in the colour of the given name.
pub open spec fn styled(cs: Seq<char>, name: Seq<char>) -> Seq<StyleCh> {
    cs.map_values(|c: char| drawn_in(c, color_named(name)))
}

/// The character drawn in the colour.
pub open spec fn drawn_in(c: char, clr: Color) -> StyleCh {
    StyleCh { content: c, fg: Some(clr), bg: None }
}

/// The object definitions read from line `i` on, given the characters and expressions of the
/// definition being read: a header line starts a definition, its following lines set port
/// expressions, and an empty line ends it. `None` when a line cannot be read. A definition
/// without an ending empty line is not kept.
pub open spec fn defs_from(ls: Seq<Seq<char>>, i: int, chs: Seq<StyleCh>, exprs: Seq<Expr>) -> Option<Seq<(Seq<StyleCh>, Seq<Expr>)>>
    decreases ls.len() - i,
{
    if i < 0 || i >= ls.len() {
        Some(seq![])
    } else if chs.len() == 0 {
        match spec_header(ls[i]) {
            None => None,
            Some(None) => defs_from(ls, i + 1, seq![], exprs),
            Some(Some((cs, name))) => defs_from(ls, i + 1, styled(cs, name), exprs),
        }
    } else if ls[i].len() > 0 {
        match spec_expr_line(ls[i]) {
            None => None,
            Some((p, e)) => defs_from(ls, i + 1, chs, exprs.update(p, e)),
        }
    } else {
        match defs_from(ls, i + 1, seq![], null_exprs()) {
            None => None,
            Some(rest) => Some(seq![(chs, exprs)] + rest),
        }
    }
}

/// The object definitions of an objects file.
pub open spec fn spec_load_objs(text: Seq<char>) -> Option<Seq<(Seq<StyleCh>, Seq<Expr>)>> {
    defs_from(spec_lines(text), 0, seq![], null_exprs())
}

/// The eight ports of the group compute the expressions, in order.
pub open spec fn grp_exprs_are(g: PortGrp, e: Seq<Expr>) -> bool {
    forall|i: int| 0 <= i < 8 ==> #[trigger] g.0@[i].out == e[i]
}

/// A port group rotated `k` times 90 degrees clockwise.
pub open spec fn rot_n(g: PortGrp, k: int) -> PortGrp
    decreases k,
{
    if k <= 0 {
        g
    } else {
        rot_n(g, k - 1).spec_rotated()
    }
}

/// The group of objects an object definition stands for: for each of its characters in turn,
/// the object rotated once more 90 degrees clockwise, drawn with that character; the first
/// object's ports compute the definition's expressions.
pub open spec fn group_of(objs: Seq<BanditObj>, def: (Seq<StyleCh>, Seq<Expr>)) -> bool {
    &&& objs.len() == def.0.len()
    &&& objs.len() > 0
    &&& objs[0] is En
    &&& objs[0]->En_0.tp is Obj
    &&& grp_exprs_are(objs[0]->En_0.tp->Obj_0, def.1)
    &&& forall|k: int| 0 <= k < objs.len() ==> {
        &&& (#[trigger] objs[k]) is En
        &&& objs[k]->En_0.ch == def.0[k]
        &&& objs[k]->En_0.tp == EntType::Obj(rot_n(objs[0]->En_0.tp->Obj_0, k))
        &&& !objs[k]->En_0.updated
        &&& objs[k]->En_0.movable
        &&& !objs[k]->En_0.active
        &&& !objs[k]->En_0.prev_active
        &&& objs[k]->En_0.handlers@.len() == 0
    }
}

proof fn lemma_grp_rotated_wf(g: PortGrp)
    requires
        g.wf(),
    ensures
        g.spec_rotated().wf(),
{
    assert forall|i: int| 0 <= i < 8 implies #[trigger] g.spec_rotated().0@[i].out.wf() by {
        lemma_rotated_wf(g.0@[(i + 6) % 8].out);
    }
}

/// Read a header line.
fn read_header(line: &[char]) -> (r: Option<Option<(Vec<char>, Vec<char>)>>)
    ensures
        match spec_header(line@) {
            None => r is None,
            Some(None) => r == Some(None::<(Vec<char>, Vec<char>)>),
            Some(Some((cs, name))) => r matches Some(Some((a, b))) && a@ == cs && b@ == name,
        },
{
    let parts = split(line, ' ');
    proof {
        lemma_split_from_len(line@, ' ', 0);
    }
    assert(parts@[0]@ == spec_split(line@, ' ')[0]);
    let first = &parts[0];
    let pieces = split(first.as_slice(), ',');
    let ghost ps = spec_split(parts@[0]@, ',');
    let mut cs: Vec<char> = Vec::new();
    let mut k: usize = 0;
    while k < pieces.len()
        invariant
            k <= pieces@.len() == ps.len(),
            parts@.len() >= 1,
            parts@[0]@ == spec_split(line@, ' ')[0],
            ps == spec_split(parts@[0]@, ','),
            forall|m: int| 0 <= m < pieces@.len() ==> #[trigger] pieces@[m]@ == ps[m],
            forall|m: int| 0 <= m < k ==> (#[trigger] ps[m]).len() > 0,
            cs@ == Seq::new(k as nat, |m: int| ps[m][0]),
        decreases pieces@.len() - k,
    {
        let piece = &pieces[k];
        if piece.len() == 0 {
            assert(ps[k as int].len() == 0);
            return None;
        }
        cs.push(piece[0]);
        k = k + 1;
        assert(cs@ =~= Seq::new(k as nat, |m: int| ps[m][0]));
    }
    if parts.len() >= 2 {
        let name = slice_chars(parts[1].as_slice(), 0, parts[1].len());
        assert(parts@[1]@.subrange(0, parts@[1]@.len() as int) =~= parts@[1]@);
        Some(Some((cs, name)))
    } else {
        Some(None)
    }
}

/// Read an expression line.
fn read_expr_line(line: &[char]) -> (r: Option<(usize, Expr)>)
    ensures
        match spec_expr_line(line@) {
            None => r is None,
            Some((p, e)) => r matches Some((q, f)) && q == p && f == e && q < 8 && f.wf(),
        },
{
    let n = line.len();
    if n >= 2 && '0' <= line[0] && line[0] <= '7' && (line[1] as u32) < 128 {
        let rest = slice_chars(line, 2, n);
        assert(rest@ =~= line@.skip(2));
        proof {
            lemma_parse_wf(rest@);
        }
        match Expr::char_parse(rest.as_slice()) {
            Ok(e) => Some(((line[0] as u8 - 48) as usize, e)),
            Err(_) => None,
        }
    } else {
        None
    }
}

/// The characters, drawn in the given colour.
fn style_all(cs: &Vec<char>, clr: Color) -> (v: Vec<StyleCh>)
    ensures
        v@ == cs@.map_values(|c: char| drawn_in(c, clr)),
{
    let mut v: Vec<StyleCh> = Vec::new();
    let mut k: usize = 0;
    while k < cs.len()
        invariant
            k <= cs@.len(),
            v@ == cs@.take(k as int).map_values(|c: char| drawn_in(c, clr)),
        decreases cs@.len() - k,
    {
        v.push(StyleCh::with(cs[k], clr));
        k = k + 1;
        assert(v@ =~= cs@.take(k as int).map_values(|c: char| drawn_in(c, clr)));
    }
    assert(cs@.take(cs@.len() as int) =~= cs@);
    v
}

/// A copy of a list of expressions.
fn clone_exprs(es: &Vec<Expr>) -> (r: Vec<Expr>)
    ensures
        r@ == es@,
{
    let mut r: Vec<Expr> = Vec::new();
    let mut i: usize = 0;
    while i < es.len()
        invariant
            i <= es@.len(),
            r@ == es@.subrange(0, i as int),
        decreases es@.len() - i,
    {
        r.push(es[i].clone());
        i = i + 1;
        assert(r@ =~= es@.subrange(0, i as int));
    }
    assert(es@.subrange(0, es@.len() as int) =~= es@);
    r
}

/// Eight empty expressions.
fn new_null_exprs() -> (r: Vec<Expr>)
    ensures
        r@ == null_exprs(),
{
    let mut r: Vec<Expr> = Vec::new();
    let mut i: usize = 0;
    while i < 8
        invariant
            i <= 8,
            r@ == Seq::new(i as nat, |k: int| Expr::Null),
        decreases 8 - i,
    {
        r.push(Expr::Null);
        i = i + 1;
        assert(r@ =~= Seq::new(i as nat, |k: int| Expr::Null));
    }
    r
}

/// The rotations of the object an object definition stands for.
fn make_group(chs: &Vec<StyleCh>, exprs: &Vec<Expr>) -> (r: Vec<Ent>)
    requires
        chs@.len() > 0,
        exprs@.len() == 8,
        forall|i: int| 0 <= i < 8 ==> (#[trigger] exprs@[i]).wf(),
    ensures
        group_of(r@.map_values(|e: Ent| BanditObj::En(e)), (chs@, exprs@)),
        forall|j: int| 0 <= j < r@.len() ==> (#[trigger] r@[j]).wf(),
{
    let mut obj = Ent::obj(chs[0], clone_exprs(exprs));
    let ghost g0 = obj.tp->Obj_0;
    assert(grp_exprs_are(g0, exprs@));
    let mut this: Vec<Ent> = Vec::new();
    this.push(obj.clone());
    let mut k: usize = 1;
    while k < chs.len()
        invariant
            1 <= k <= chs@.len(),
            grp_exprs_are(g0, exprs@),
            g0.wf(),
            obj.ch == chs@[k - 1],
            obj.tp == EntType::Obj(rot_n(g0, k - 1)),
            rot_n(g0, k - 1).wf(),
            !obj.updated && obj.movable && !obj.active && !obj.prev_active && obj.handlers@.len() == 0,
            this@.len() == k,
            forall|j: int| 0 <= j < k ==> {
                &&& (#[trigger] this@[j]).ch == chs@[j]
                &&& this@[j].tp == EntType::Obj(rot_n(g0, j))
                &&& !this@[j].updated && this@[j].movable && !this@[j].active && !this@[j].prev_active
                &&& this@[j].handlers@.len() == 0
                &&& rot_n(g0, j).wf()
            },
        decreases chs@.len() - k,
    {
        obj.rotate_90();
        obj.ch = chs[k];
        proof {
            lemma_grp_rotated_wf(rot_n(g0, k - 1));
        }
        this.push(obj.clone());
        k = k + 1;
    }
    proof {
        let objs = this@.map_values(|e: Ent| BanditObj::En(e));
        assert forall|j: int| 0 <= j < this@.len() implies (#[trigger] this@[j]).wf() by {
            assert(this@[j].tp == EntType::Obj(rot_n(g0, j)));
        }
        assert forall|j: int| 0 <= j < objs.len() implies (#[trigger] objs[j]) is En && objs[j]->En_0 == this@[j] by {}
    }
    this
}

/// Load some objects from the text of an objects file. `None` when a line cannot be read.
pub fn load_objs(text: &str) -> (r: Option<ObjList>)
    ensures
        match spec_load_objs(text@) {
            None => r is None,
            Some(defs) => r matches Some(l) && l@.len() == defs.len()
                && forall|g: int| 0 <= g < defs.len() ==> group_of(#[trigger] l@[g], defs[g]),
        },
{
    let chars = chars_of(text);
    let ls = lines(chars.as_slice());
    let ghost l = spec_lines(text@);
    let mut chs: Vec<StyleCh> = Vec::new();
    let mut exprs: Vec<Expr> = new_null_exprs();
    let mut ents = ObjList::new();
    let ghost mut done: Seq<(Seq<StyleCh>, Seq<Expr>)> = seq![];
    let mut i: usize = 0;
    assert(chs@ =~= Seq::<StyleCh>::empty());
    proof {
        match defs_from(l, 0, chs@, exprs@) {
            Some(rest) => {
                assert(done + rest =~= rest);
            },
            None => {},
        }
    }
    while i < ls.len()
        invariant
            i <= ls@.len() == l.len(),
            l == spec_lines(text@),
            forall|k: int| 0 <= k < ls@.len() ==> #[trigger] ls@[k]@ == l[k],
            exprs@.len() == 8,
            forall|k: int| 0 <= k < 8 ==> (#[trigger] exprs@[k]).wf(),
            ents@.len() == done.len(),
            forall|g: int| 0 <= g < done.len() ==> group_of(#[trigger] ents@[g], done[g]),
            spec_load_objs(text@) == match defs_from(l, i as int, chs@, exprs@) {
                None => None::<Seq<(Seq<StyleCh>, Seq<Expr>)>>,
                Some(rest) => Some(done + rest),
            },
        decreases ls@.len() - i,
    {
        let line = &ls[i];
        if chs.len() == 0 {
            match read_header(line.as_slice()) {
                None => {
                    return None;
                },
                Some(None) => {
                    assert(chs@ =~= Seq::<StyleCh>::empty());
                },
                Some(Some((cs, name))) => {
                    let clr = color_from_name(string_from_chars(name.as_slice()).as_str());
                    let v = style_all(&cs, clr);
                    chs = v;
                    assert(chs@ =~= styled(cs@, name@));
                },
            }
        } else if line.len() > 0 {
            match read_expr_line(line.as_slice()) {
                None => {
                    return None;
                },
                Some((p, e)) => {
                    exprs.set(p, e);
                },
            }
        } else {
            let group = make_group(&chs, &exprs);
            let ghost def = (chs@, exprs@);
            let ghost before = ents@;
            ents.add_entities(group);
            chs = Vec::new();
            exprs = new_null_exprs();
            proof {
                let old_done = done;
                done = done.push(def);
                assert forall|g: int| 0 <= g < done.len() implies group_of(#[trigger] ents@[g], done[g]) by {
                    if g < old_done.len() {
                        assert(ents@[g] == before[g]);
                    }
                }
                match defs_from(l, i + 1, chs@, exprs@) {
                    Some(rest) => {
                        assert(old_done + (seq![def] + rest) =~= done + rest);
                    },
                    None => {},
                }
            }
        }
        i = i + 1;
    }
    proof {
        assert(done + Seq::<(Seq<StyleCh>, Seq<Expr>)>::empty() =~= done);
    }
    Some(ents)
}
/// The group is a goal of the colour with bits `c`.
pub open spec fn goal_group(grp: Seq<BanditObj>, c: int) -> bool {
    &&& grp.len() == 1
    &&& grp[0] matches BanditObj::En(e) && e.is_goal(Clr::spec_from_bits(c as u8))
}

/// The group is a laser of the colour with bits `c` in its eight directions, starting with
/// the direction of port 1 and going round.
pub open spec fn laser_group(grp: Seq<BanditObj>, c: int) -> bool {
    &&& grp.len() == 8
    &&& forall|p: int| 0 <= p < 8 ==> ((#[trigger] grp[p]) matches BanditObj::En(e)
        && e.is_laser(spec_port_dir((p + 1) % 8), Clr::spec_from_bits(c as u8)))
}

/// After the first `base` groups, the groups of colour `c`: its goal, then its laser.
pub open spec fn colour_groups(objs: Seq<Seq<BanditObj>>, base: int, c: int) -> bool {
    goal_group(objs[base + 2 * c - 2], c) && laser_group(objs[base + 2 * c - 1], c)
}

/// The object list the editor offers: the player, then the loaded groups, then for each colour
/// but black, in the order of their bits, a goal and a laser of that colour.
pub open spec fn editor_list(objs: Seq<Seq<BanditObj>>, loaded: Seq<Seq<BanditObj>>) -> bool {
    &&& objs.len() == loaded.len() + 15
    &&& objs[0].len() == 1
    &&& objs[0][0] matches BanditObj::En(p) && p.is_player_ent()
    &&& forall|g: int| 0 <= g < loaded.len() ==> (#[trigger] objs[g + 1]).len() == loaded[g].len()
    &&& forall|g: int, j: int| 0 <= g < loaded.len() && 0 <= j < loaded[g].len() ==> (#[trigger] objs[g + 1][j]).same_as(loaded[g][j])
    &&& forall|c: int| 1 <= c < 8 ==> #[trigger] colour_groups(objs, loaded.len() + 1int, c)
}

/// The objects offered in the editor: the player first, then the loaded objects, then for
/// each colour but black a goal and a laser of that colour, its first direction orthogonal.
pub fn editor_objs(loaded: &ObjList) -> (objs: ObjList)
    ensures
        editor_list(objs@, loaded@),
{
    let mut objs = ObjList::new();
    objs.add_entity(Ent::player());
    let n = loaded.len();
    let mut i: usize = 0;
    while i < n
        invariant
            n == loaded@.len(),
            i <= n,
            objs@.len() == i + 1,
            objs@[0].len() == 1,
            objs@[0][0] matches BanditObj::En(p) && p.is_player_ent(),
            forall|g: int| 0 <= g < i ==> (#[trigger] objs@[g + 1]).len() == loaded@[g].len(),
            forall|g: int, j: int| 0 <= g < i && 0 <= j < loaded@[g].len() ==> (#[trigger] objs@[g + 1][j]).same_as(loaded@[g][j]),
        decreases n - i,
    {
        let m = loaded.group_len(i);
        let mut grp: Vec<BanditObj> = Vec::new();
        let mut j: usize = 0;
        while j < m
            invariant
                n == loaded@.len(),
                i < n,
                m == loaded@[i as int].len(),
                j <= m,
                grp@.len() == j,
                forall|k: int| 0 <= k < j ==> (#[trigger] grp@[k]).same_as(loaded@[i as int][k]) && grp@[k].wf(),
            decreases m - j,
        {
            let o = loaded.get(i, j).clone();
            grp.push(o);
            j = j + 1;
        }
        let ghost before = objs@;
        objs.push_group(grp);
        assert forall|g: int, j: int| 0 <= g < i + 1 && 0 <= j < loaded@[g].len() implies (#[trigger] objs@[g + 1][j]).same_as(loaded@[g][j]) by {
            if g < i {
                assert(objs@[g + 1] == before[g + 1]);
            }
        }
        assert forall|g: int| 0 <= g < i + 1 implies (#[trigger] objs@[g + 1]).len() == loaded@[g].len() by {
            if g < i {
                assert(objs@[g + 1] == before[g + 1]);
            }
        }
        i = i + 1;
    }
    let mut c: u8 = 1;
    while c < 8
        invariant
            n == loaded@.len(),
            1 <= c <= 8,
            objs@.len() == n + 1 + 2 * (c - 1),
            objs@[0].len() == 1,
            objs@[0][0] matches BanditObj::En(p) && p.is_player_ent(),
            forall|g: int| 0 <= g < n ==> (#[trigger] objs@[g + 1]).len() == loaded@[g].len(),
            forall|g: int, j: int| 0 <= g < n && 0 <= j < loaded@[g].len() ==> (#[trigger] objs@[g + 1][j]).same_as(loaded@[g][j]),
            forall|k: int| 1 <= k < c ==> #[trigger] colour_groups(objs@, n + 1, k),
        decreases 8 - c,
    {
        let clr = Clr::from_u8(c);
        let ghost before = objs@;
        objs.add_entity(Ent::goal(clr));
        let mut lsrs: Vec<Ent> = Vec::new();
        let mut p: usize = 0;
        while p < 8
            invariant
                p <= 8,
                lsrs@.len() == p,
                forall|k: int| 0 <= k < p ==> (#[trigger] lsrs@[k]).is_laser(spec_port_dir((k + 1) % 8), clr) && lsrs@[k].wf(),
            decreases 8 - p,
        {
            lsrs.push(Ent::laser(port_dir((p + 1) % 8), clr));
            p = p + 1;
        }
        objs.add_entities(lsrs);
        proof {
            assert(objs@.len() == before.len() + 2);
            assert forall|g: int| 0 <= g < before.len() implies objs@[g] == before[g] by {}
            assert forall|k: int| 1 <= k < c + 1 implies #[trigger] colour_groups(objs@, n + 1, k) by {
                if k < c {
                    assert(colour_groups(before, n + 1, k));
                    assert(objs@[n + 1 + 2 * k - 2] == before[n + 1 + 2 * k - 2]);
                    assert(objs@[n + 1 + 2 * k - 1] == before[n + 1 + 2 * k - 1]);
                } else {
                    assert(laser_group(objs@[n + 1 + 2 * k - 1], k));
                }
            }
            assert forall|g: int| 0 <= g < n implies (#[trigger] objs@[g + 1]).len() == loaded@[g].len() by {
                assert(objs@[g + 1] == before[g + 1]);
            }
            assert forall|g: int, j: int| 0 <= g < n && 0 <= j < loaded@[g].len() implies (#[trigger] objs@[g + 1][j]).same_as(loaded@[g][j]) by {
                assert(objs@[g + 1] == before[g + 1]);
            }
        }
        c = c + 1;
    }
    objs
}

/// In the editor's list the player comes first and only there, when the loaded objects hold
/// no player.
pub proof fn lemma_editor_list_player_first(objs: Seq<Seq<BanditObj>>, loaded: Seq<Seq<BanditObj>>)
    requires
        editor_list(objs, loaded),
        forall|g: int, j: int| 0 <= g < loaded.len() && 0 <= j < loaded[g].len()
            ==> !((#[trigger] loaded[g][j]) is En && loaded[g][j]->En_0.tp is Player),
    ensures
        crate::editor::player_group(objs),
{
    let l = loaded.len() as int;
    assert forall|i: int, j: int| 0 <= i < objs.len() && 0 <= j < objs[i].len() implies
        ((#[trigger] objs[i][j] is En && objs[i][j]->En_0.tp is Player) <==> i == 0) by {
        if i == 0 {
        } else if i <= l {
            assert(objs[(i - 1) + 1][j].same_as(loaded[i - 1][j]));
            assert(!(loaded[i - 1][j] is En && loaded[i - 1][j]->En_0.tp is Player));
        } else {
            let k = i - (l + 1);
            let c = k / 2 + 1;
            assert(1 <= c < 8);
            assert(colour_groups(objs, l + 1, c));
            if k % 2 == 0 {
                assert(i == l + 1 + 2 * c - 2);
            } else {
                assert(i == l + 1 + 2 * c - 1);
                assert(0 <= j < 8);
            }
        }
    }
}

} // verus!
