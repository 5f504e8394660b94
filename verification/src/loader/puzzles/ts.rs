//! Converting characters into objects of a puzzle grid.

use vstd::prelude::*;
use std::collections::HashMap;
use crate::Tile;
use crate::entity::Ent;
use crate::style::{Color, StyleCh};

verus! {

/// An object in a puzzle grid.
#[derive(Debug)]
pub enum BanditObj {
    Tile(Tile),
    En(Ent),
}

impl BanditObj {
    /// The two objects are the same kind of object and agree in every field.
    pub open spec fn same_as(self, other: BanditObj) -> bool {
        match (self, other) {
            (BanditObj::Tile(a), BanditObj::Tile(b)) => a.same_as(b),
            (BanditObj::En(a), BanditObj::En(b)) => a.same_as(b),
            _ => false,
        }
    }

    /// The object inside is well formed.
    pub open spec fn wf(self) -> bool {
        match self {
            BanditObj::Tile(t) => t.wf(),
            BanditObj::En(e) => e.wf(),
        }
    }

    /// The character the object is drawn with: a tile's current state's, or an entity's.
    pub open spec fn spec_ch(self) -> StyleCh {
        match self {
            BanditObj::Tile(t) => t.spec_cur_state().ch,
            BanditObj::En(e) => e.ch,
        }
    }

    /// The entity inside. Only to be called on the `En` variant.
    pub fn assume_en(&self) -> (e: &Ent)
        requires
            self is En,
        ensures
            *e == self->En_0,
    {
        match self {
            BanditObj::En(en) => en,
            BanditObj::Tile(_) => vstd::pervasive::unreached(),
        }
    }
}

impl Clone for BanditObj {
    fn clone(&self) -> (o: Self)
        ensures
            o.same_as(*self),
    {
        match self {
            BanditObj::Tile(t) => BanditObj::Tile(t.clone()),
            BanditObj::En(e) => BanditObj::En(e.clone()),
        }
    }
}

/// The key a styled character is looked up by: its character and its colour, white when it
/// has none.
pub open spec fn spec_key(ch: StyleCh) -> (char, Color) {
    (ch.content, match ch.fg {
        Some(c) => c,
        None => Color::White,
    })
}

/// A number standing for a terminal colour: the named colours first, then the RGB colours,
/// then the ANSI values; every colour has its own, below 2^26.
pub open spec fn colour_code(c: Color) -> u64 {
    match c {
        Color::Reset => 0,
        Color::Black => 1,
        Color::DarkGrey => 2,
        Color::Red => 3,
        Color::DarkRed => 4,
        Color::Green => 5,
        Color::DarkGreen => 6,
        Color::Yellow => 7,
        Color::DarkYellow => 8,
        Color::Blue => 9,
        Color::DarkBlue => 10,
        Color::Magenta => 11,
        Color::DarkMagenta => 12,
        Color::Cyan => 13,
        Color::DarkCyan => 14,
        Color::White => 15,
        Color::Grey => 16,
        Color::Rgb { r, g, b } => (32 + r as int * 65536 + g as int * 256 + b as int) as u64,
        Color::AnsiValue(v) => (33554432 + v as int) as u64,
    }
}

/// The number a key is stored under: its character, then its colour's number.
pub open spec fn key_code(k: (char, Color)) -> u64 {
    ((k.0 as u32) as int * 67108864 + colour_code(k.1) as int) as u64
}

proof fn lemma_colour_code_injective(a: Color, b: Color)
    ensures
        colour_code(a) < 67108864,
        colour_code(a) == colour_code(b) ==> a == b,
{
    if let Color::Rgb { r: r1, g: g1, b: b1 } = a {
        if let Color::Rgb { r: r2, g: g2, b: b2 } = b {
            let (x1, y1, z1, x2, y2, z2) = (r1 as int, g1 as int, b1 as int, r2 as int, g2 as int, b2 as int);
            assert(x1 * 65536 + y1 * 256 + z1 == x2 * 65536 + y2 * 256 + z2 ==> x1 == x2 && y1 == y2 && z1 == z2)
                by (nonlinear_arith)
                requires
                    0 <= x1 < 256, 0 <= y1 < 256, 0 <= z1 < 256,
                    0 <= x2 < 256, 0 <= y2 < 256, 0 <= z2 < 256,
            ;
        }
        assert(r1 as int * 65536 + g1 as int * 256 + b1 as int <= 255 * 65536 + 255 * 256 + 255) by (nonlinear_arith)
            requires
                r1 < 256, g1 < 256, b1 < 256,
        ;
    }
    if let Color::Rgb { r: r2, g: g2, b: b2 } = b {
        assert(r2 as int * 65536 + g2 as int * 256 + b2 as int <= 255 * 65536 + 255 * 256 + 255) by (nonlinear_arith)
            requires
                r2 < 256, g2 < 256, b2 < 256,
        ;
    }
}

/// Different keys are stored under different numbers.
proof fn lemma_key_code_injective(a: (char, Color), b: (char, Color))
    ensures
        key_code(a) == key_code(b) ==> a == b,
{
    lemma_colour_code_injective(a.1, b.1);
    lemma_colour_code_injective(b.1, a.1);
    vstd::utf8::char_is_scalar(a.0);
    vstd::utf8::char_is_scalar(b.0);
    vstd::utf8::char_u32_cast(a.0, a.0 as u32);
    vstd::utf8::char_u32_cast(b.0, b.0 as u32);
    let (c1, c2) = ((a.0 as u32) as int, (b.0 as u32) as int);
    let (d1, d2) = (colour_code(a.1) as int, colour_code(b.1) as int);
    assert(0 <= c1 <= 0x10FFFF && 0 <= c2 <= 0x10FFFF);
    assert(c1 * 67108864 + d1 <= 0x10FFFF * 67108864 + 67108863) by (nonlinear_arith)
        requires
            0 <= c1 <= 0x10FFFF, 0 <= d1 < 67108864,
    ;
    assert(c2 * 67108864 + d2 <= 0x10FFFF * 67108864 + 67108863) by (nonlinear_arith)
        requires
            0 <= c2 <= 0x10FFFF, 0 <= d2 < 67108864,
    ;
    assert(c1 * 67108864 + d1 == c2 * 67108864 + d2 ==> c1 == c2 && d1 == d2) by (nonlinear_arith)
        requires
            0 <= d1 < 67108864, 0 <= d2 < 67108864,
    ;
}

/// Mapping of characters to tiles or entities.
pub struct TileSet {
    objs: HashMap<u64, BanditObj>,
}

impl View for TileSet {
    type V = Map<(char, Color), BanditObj>;

    closed spec fn view(&self) -> Map<(char, Color), BanditObj> {
        Map::new(|k: (char, Color)| self.objs@.contains_key(key_code(k)), |k: (char, Color)| self.objs@[key_code(k)])
    }
}

impl TileSet {
    /// Every object is well formed.
    #[verifier::type_invariant]
    closed spec fn inv(self) -> bool {
        forall|c: u64| #[trigger] self.objs@.contains_key(c) ==> self.objs@[c].wf()
    }

    /// Create an empty tile set.
    pub fn new() -> (ts: Self)
        ensures
            ts@ == Map::<(char, Color), BanditObj>::empty(),
    {
        broadcast use vstd::std_specs::hash::group_hash_axioms;
        let ts = TileSet { objs: HashMap::new() };
        assert(ts@ =~= Map::<(char, Color), BanditObj>::empty());
        ts
    }

    /// Put an object under a key, replacing what was there.
    fn put(&mut self, k: (char, Color), obj: BanditObj)
        requires
            obj.wf(),
        ensures
            final(self)@ == old(self)@.insert(k, obj),
    {
        broadcast use vstd::std_specs::hash::group_hash_axioms;
        proof {
            use_type_invariant(&*self);
        }
        let code = Self::code(k);
        let mut objs: HashMap<u64, BanditObj> = HashMap::new();
        std::mem::swap(&mut objs, &mut self.objs);
        let ghost before = objs@;
        objs.insert(code, obj);
        self.objs = objs;
        proof {
            assert forall|q: (char, Color)| #[trigger] self@.contains_key(q) <==> old(self)@.insert(k, obj).contains_key(q) by {
                lemma_key_code_injective(q, k);
            }
            assert forall|q: (char, Color)| #[trigger] self@.contains_key(q) implies self@[q] == old(self)@.insert(k, obj)[q] by {
                lemma_key_code_injective(q, k);
            }
            assert(self@ =~= old(self)@.insert(k, obj));
        }
    }

    /// Insert an object into the tile set, under the key of the character it is drawn with.
    pub fn insert(&mut self, obj: BanditObj)
        requires
            obj.wf(),
        ensures
            final(self)@ == old(self)@.insert(spec_key(obj.spec_ch()), obj),
    {
        match obj {
            BanditObj::En(en) => self.add_entity(en),
            BanditObj::Tile(t) => self.add_tile(t),
        }
    }

    /// Add the tile into the tile set.
    pub fn add_tile(&mut self, tile: Tile)
        requires
            tile.wf(),
        ensures
            final(self)@ == old(self)@.insert(spec_key(tile.spec_cur_state().ch), BanditObj::Tile(tile)),
    {
        let k = Self::key(tile.cur_state().ch);
        self.put(k, BanditObj::Tile(tile));
    }

    /// Add the entity into the tile set.
    pub fn add_entity(&mut self, en: Ent)
        requires
            en.wf(),
        ensures
            final(self)@ == old(self)@.insert(spec_key(en.ch), BanditObj::En(en)),
    {
        let k = Self::key(en.ch);
        self.put(k, BanditObj::En(en));
    }

    /// What the given character stands for, if anything.
    pub fn map(&self, ch: StyleCh) -> (r: Option<&BanditObj>)
        ensures
            match r {
                Some(o) => self@.contains_key(spec_key(ch)) && *o == self@[spec_key(ch)] && o.wf(),
                None => !self@.contains_key(spec_key(ch)),
            },
    {
        broadcast use vstd::std_specs::hash::group_hash_axioms;
        proof {
            use_type_invariant(self);
        }
        let code = Self::code(Self::key(ch));
        self.objs.get(&code)
    }

    /// Turn a styled character into a key.
    fn key(ch: StyleCh) -> (k: (char, Color))
        ensures
            k == spec_key(ch),
    {
        (ch.content, match ch.fg {
            Some(c) => c,
            None => Color::White,
        })
    }

    /// The number a colour is stored under.
    fn colour_code(c: Color) -> (n: u64)
        ensures
            n == colour_code(c),
    {
        match c {
            Color::Reset => 0,
            Color::Black => 1,
            Color::DarkGrey => 2,
            Color::Red => 3,
            Color::DarkRed => 4,
            Color::Green => 5,
            Color::DarkGreen => 6,
            Color::Yellow => 7,
            Color::DarkYellow => 8,
            Color::Blue => 9,
            Color::DarkBlue => 10,
            Color::Magenta => 11,
            Color::DarkMagenta => 12,
            Color::Cyan => 13,
            Color::DarkCyan => 14,
            Color::White => 15,
            Color::Grey => 16,
            Color::Rgb { r, g, b } => 32 + r as u64 * 65536 + g as u64 * 256 + b as u64,
            Color::AnsiValue(v) => 33554432 + v as u64,
        }
    }

    /// The number a key is stored under.
    fn code(k: (char, Color)) -> (n: u64)
        ensures
            n == key_code(k),
    {
        proof {
            lemma_colour_code_injective(k.1, k.1);
            vstd::utf8::char_is_scalar(k.0);
            assert((k.0 as u32) as int * 67108864 <= 0x10FFFF * 67108864) by (nonlinear_arith)
                requires
                    0 <= (k.0 as u32) as int <= 0x10FFFF,
            ;
        }
        (k.0 as u32 as u64) * 67108864 + Self::colour_code(k.1)
    }
}

} // verus!
