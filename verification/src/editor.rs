//! Creating puzzles: the level editor, and the counter used to choose a puzzle's size.

use vstd::prelude::*;
use crate::{Tile, plain_state};
use crate::entity::{Ent, EntType, immovable_clr};
use crate::grid::{Grid, GridView};
use crate::loader::ObjList;
use crate::loader::puzzles::{Puzzle, PuzzlePack, spec_pl_default_pos, writable};
use crate::loader::saver::is_secret;
use crate::digest::spec_text_id;
use crate::loader::puzzles::ts::BanditObj;
use crate::point::Point;
use crate::style::{Color, StyleCh};
use crate::text::{chars_of, split, spec_split, lemma_split_from_len, parse_usize, parse_i32, spec_parse_usize, spec_parse_i32};

verus! {

/// A key pressed in the editor.
#[derive(Clone, Copy, Debug, PartialEq, Eq, Structural)]
pub enum Key {
    Left,
    Right,
    Up,
    Down,
    Char(char),
    Enter,
    Backspace,
    Esc,
    Other,
}

/// Something that may occur while editing a puzzle that must be handled externally.
#[derive(Clone, Copy, Debug, PartialEq, Eq, Structural)]
pub enum EditEvent {
    PickObj,
    Menu,
    Null,
}

/// A way in which editing a puzzle can end.
#[derive(Clone, Copy, Debug, PartialEq, Eq, Structural)]
pub enum EditExit {
    Save,
    Quit,
    Test,
}

/// Where the editor is drawn on the terminal.
pub fn default_pos() -> (p: Point)
    ensures
        p == (Point { x: 60i32, y: 5i32 }),
{
    Point::new((crate::TERMINAL_WID / 2) as i32, 5)
}

/// The colour the cursor is drawn on.
pub open spec fn cursor_clr() -> Color {
    Color::DarkCyan
}

/// The tile is a standard floor.
pub open spec fn is_floor(t: Tile) -> bool {
    t.single(plain_state('.', Color::White))
}

/// The tile is a standard wall.
pub open spec fn is_wall(t: Tile) -> bool {
    t.single(wall_state())
}

/// The state of a standard wall.
pub open spec fn wall_state() -> crate::TileState {
    crate::TileState { ch: StyleCh { content: '#', fg: Some(Color::White), bg: None }, blocking: true, opaque: true, scary: false }
}

/// The point lies on the border of a grid of the given size.
pub open spec fn on_border(p: Point, wid: int, hgt: int) -> bool {
    p.x == 0 || p.x == wid - 1 || p.y == 0 || p.y == hgt - 1
}

/// The point lies in a grid of the given size.
pub open spec fn in_rect(p: Point, wid: int, hgt: int) -> bool {
    0 <= p.x < wid && 0 <= p.y < hgt
}

/// The tiles after outlining the rows below `rows` of a grid of the given size: walls on its
/// border, floors on its empty inner points, everything else as it was.
pub open spec fn outlined_rows(before: Map<Point, Tile>, after: Map<Point, Tile>, wid: int, hgt: int, rows: int) -> bool {
    &&& forall|p: Point| #[trigger] after.contains_key(p) <==> (before.contains_key(p) || in_rect(p, wid, rows))
    &&& forall|p: Point| #[trigger] after.contains_key(p) ==> {
        if in_rect(p, wid, rows) && on_border(p, wid, hgt) {
            is_wall(after[p])
        } else if in_rect(p, wid, rows) && !before.contains_key(p) {
            is_floor(after[p])
        } else {
            after[p] == before[p]
        }
    }
}

/// The tiles after outlining a grid of the given size: walls all round its border, floors on
/// its empty inner points, everything else as it was.
pub open spec fn outlined(before: Map<Point, Tile>, after: Map<Point, Tile>, wid: int, hgt: int) -> bool {
    outlined_rows(before, after, wid, hgt, hgt)
}

/// Outline the map with walls: walls all round its border, and floors on its inner points
/// that have no tile.
pub fn outline(map: &mut Grid)
    requires
        old(map)@.wid < 1_000_000_000,
        old(map)@.hgt < 1_000_000_000,
    ensures
        final(map)@.wid == old(map)@.wid,
        final(map)@.hgt == old(map)@.hgt,
        final(map)@.ents == old(map)@.ents,
        final(map)@.effects == old(map)@.effects,
        outlined(old(map)@.tiles, final(map)@.tiles, old(map)@.wid as int, old(map)@.hgt as int),
{
    let wid = map.wid();
    let hgt = map.hgt();
    let ghost before = map@.tiles;
    let mut y: usize = 0;
    while y < hgt
        invariant
            wid == map@.wid < 1_000_000_000,
            hgt == map@.hgt < 1_000_000_000,
            y <= hgt,
            map@.ents == old(map)@.ents,
            map@.effects == old(map)@.effects,
            before == old(map)@.tiles,
            outlined_rows(before, map@.tiles, wid as int, hgt as int, y as int),
        decreases hgt - y,
    {
        let mut x: usize = 0;
        while x < wid
            invariant
                wid == map@.wid < 1_000_000_000,
                hgt == map@.hgt < 1_000_000_000,
                y < hgt,
                x <= wid,
                map@.ents == old(map)@.ents,
                map@.effects == old(map)@.effects,
                before == old(map)@.tiles,
                forall|p: Point| #[trigger] map@.tiles.contains_key(p) <==> (before.contains_key(p) || in_rect(p, wid as int, y as int)
                    || (p.y == y && 0 <= p.x < x)),
                forall|p: Point| #[trigger] map@.tiles.contains_key(p) ==> {
                    let done = in_rect(p, wid as int, y as int) || (p.y == y && 0 <= p.x < x);
                    if done && on_border(p, wid as int, hgt as int) {
                        is_wall(map@.tiles[p])
                    } else if done && !before.contains_key(p) {
                        is_floor(map@.tiles[p])
                    } else {
                        map@.tiles[p] == before[p]
                    }
                },
            decreases wid - x,
        {
            let p = Point::new(x as i32, y as i32);
            if x == 0 || x == wid - 1 || y == 0 || y == hgt - 1 {
                map.insert_tile(Tile::wall(), p);
            } else if map.get_map(p).is_none() {
                map.insert_tile(Tile::floor(), p);
            }
            x = x + 1;
        }
        y = y + 1;
        assert forall|p: Point| #[trigger] map@.tiles.contains_key(p) <==> (before.contains_key(p) || in_rect(p, wid as int, y as int)) by {}
        assert forall|p: Point| #[trigger] map@.tiles.contains_key(p) implies {
            if in_rect(p, wid as int, y as int) && on_border(p, wid as int, hgt as int) {
                is_wall(map@.tiles[p])
            } else if in_rect(p, wid as int, y as int) && !before.contains_key(p) {
                is_floor(map@.tiles[p])
            } else {
                map@.tiles[p] == before[p]
            }
        } by {
            assert(in_rect(p, wid as int, y as int) <==> (in_rect(p, wid as int, y - 1) || (p.y == y - 1 && 0 <= p.x < wid)));
        }
    }
}

/// The entities after putting a copy of `e` at `p`.
pub open spec fn ents_put(a: Map<Point, Ent>, b: Map<Point, Ent>, p: Point, e: Ent) -> bool {
    &&& b.dom() == a.dom().insert(p)
    &&& b[p].same_as(e)
    &&& forall|q: Point| q != p && #[trigger] a.contains_key(q) ==> b[q] == a[q]
}

/// The tiles after putting a tile like `t` at `p`.
pub open spec fn tiles_put(a: Map<Point, Tile>, b: Map<Point, Tile>, p: Point, t: Tile) -> bool {
    &&& b.dom() == a.dom().insert(p)
    &&& b[p].same_as(t)
    &&& forall|q: Point| q != p && #[trigger] a.contains_key(q) ==> b[q] == a[q]
}

/// The tiles after putting a standard floor at `p`.
pub open spec fn floor_put(a: Map<Point, Tile>, b: Map<Point, Tile>, p: Point) -> bool {
    &&& b.dom() == a.dom().insert(p)
    &&& is_floor(b[p])
    &&& forall|q: Point| q != p && #[trigger] a.contains_key(q) ==> b[q] == a[q]
}

/// The point holds the player.
pub open spec fn player_at(g: GridView, p: Point) -> bool {
    g.ents.contains_key(p) && g.ents[p].tp is Player
}

/// Allows the user to create a puzzle: a grid, a cursor on it, the object to place (a group of
/// the object list and a rotation within it), whether the last action deleted something, and
/// where the player is, if placed.
pub struct LevelEditor {
    /// Map edited.
    pub data: Grid,
    /// Where objects are placed.
    pub cursor: Point,
    /// Current object group index into the object list.
    pub cur_idx: usize,
    /// Current rotation within the group.
    pub cur_rot: usize,
    /// The last action deleted something.
    pub just_deleted: bool,
    /// Current player position.
    pub pl_pos: Option<Point>,
}

impl LevelEditor {
    /// The cursor lies in the coordinate range, inside the border, and the grid's size fits the
    /// coordinate range.
    pub open spec fn wf(self) -> bool {
        &&& self.cursor.in_range()
        &&& 1 <= self.cursor.x
        &&& 1 <= self.cursor.y
        &&& self.data@.wid < 1_000_000_000
        &&& self.data@.hgt < 1_000_000_000
    }

    /// The current object exists in the object list.
    pub open spec fn ready(self, objs: Seq<Seq<BanditObj>>) -> bool {
        &&& self.cur_idx < objs.len()
        &&& self.cur_rot < objs[self.cur_idx as int].len()
    }

    /// The object to place.
    pub open spec fn spec_obj(self, objs: Seq<Seq<BanditObj>>) -> BanditObj {
        objs[self.cur_idx as int][self.cur_rot as int]
    }

    /// Create a new level editor on a grid.
    pub fn new(data: Grid) -> (e: Self)
        requires
            data@.wid < 1_000_000_000,
            data@.hgt < 1_000_000_000,
        ensures
            e.wf(),
            e.data == data,
            e.cursor == (Point { x: 1i32, y: 1i32 }),
            e.cur_idx == 0,
            e.cur_rot == 0,
            !e.just_deleted,
            e.pl_pos is None,
    {
        LevelEditor { data, cursor: Point::new(1, 1), cur_idx: 0, cur_rot: 0, just_deleted: false, pl_pos: None }
    }

    /// Change the size of this level editor: the old size is outlined first.
    pub fn resize(&mut self, new_wid: usize, new_hgt: usize)
        requires
            old(self).wf(),
            new_wid < 1_000_000_000,
            new_hgt < 1_000_000_000,
        ensures
            final(self).wf(),
            final(self).data@.wid == new_wid,
            final(self).data@.hgt == new_hgt,
            final(self).data@.ents == old(self).data@.ents,
            final(self).data@.effects == old(self).data@.effects,
            outlined(old(self).data@.tiles, final(self).data@.tiles, old(self).data@.wid as int, old(self).data@.hgt as int),
            final(self).cursor == old(self).cursor,
            final(self).cur_idx == old(self).cur_idx,
            final(self).cur_rot == old(self).cur_rot,
            final(self).just_deleted == old(self).just_deleted,
            final(self).pl_pos == old(self).pl_pos,
    {
        outline(&mut self.data);
        self.data.set_size(new_wid, new_hgt);
    }

    /// The character of the current object.
    fn get_cur_ch(&self, objs: &ObjList) -> (c: StyleCh)
        requires
            self.ready(objs@),
        ensures
            c == self.spec_obj(objs@).spec_ch(),
    {
        match objs.get(self.cur_idx, self.cur_rot) {
            BanditObj::En(e) => e.ch,
            BanditObj::Tile(t) => t.cur_state().ch,
        }
    }

    /// Change the rotation, going round the current group: up to the next one (the first after
    /// the last), down to the one before (the last before the first).
    pub fn rot(&mut self, objs: &ObjList, up: bool)
        requires
            old(self).ready(objs@),
        ensures
            *final(self) == (LevelEditor { cur_rot: spec_rot(old(self).cur_rot, objs@[old(self).cur_idx as int].len() as int, up), ..*old(self) }),
            final(self).cur_rot == if up {
                (old(self).cur_rot + 1) % (objs@[old(self).cur_idx as int].len() as int)
            } else {
                (old(self).cur_rot + objs@[old(self).cur_idx as int].len() - 1) % (objs@[old(self).cur_idx as int].len() as int)
            },
            final(self).ready(objs@),
    {
        let len = objs.group_len(self.cur_idx);
        proof {
            lemma_rot_laws(self.cur_rot, len as int);
        }
        if up {
            self.cur_rot = self.cur_rot + 1;
            if self.cur_rot == len {
                self.cur_rot = 0;
            }
        } else if self.cur_rot == 0 {
            self.cur_rot = len - 1;
        } else {
            self.cur_rot = self.cur_rot - 1;
        }
    }

    /// Place the current object at the cursor: an entity goes on a floor, a tile replaces what
    /// was there.
    fn place(&mut self, objs: &ObjList)
        requires
            old(self).wf(),
            old(self).ready(objs@),
        ensures
            placed(*old(self), *final(self), old(self).spec_obj(objs@)),
    {
        let c = self.cursor;
        match objs.get(self.cur_idx, self.cur_rot) {
            BanditObj::En(e) => {
                let pl_over = match self.data.get_ent(c) {
                    Some(x) => x.is_player(),
                    None => false,
                };
                self.data.insert_entity(e.clone(), c);
                if pl_over {
                    self.pl_pos = None;
                }
                if self.cur_idx == 0 {
                    self.pl_pos = Some(c);
                }
                self.data.insert_tile(Tile::floor(), c);
            },
            BanditObj::Tile(t) => {
                self.data.insert_tile(t.clone(), c);
                match self.data.del_ent(c) {
                    Some(x) => {
                        if x.is_player() {
                            self.pl_pos = None;
                        }
                    },
                    None => {},
                }
            },
        }
    }
}

/// The rotation after turning up or down within a group of `len` rotations.
pub open spec fn spec_rot(rot: usize, len: int, up: bool) -> usize {
    if up {
        if rot + 1 == len { 0 } else { (rot + 1) as usize }
    } else if rot == 0 {
        (len - 1) as usize
    } else {
        (rot - 1) as usize
    }
}

/// The editor after placing an object at the cursor: an entity is put there on a floor, and
/// becomes the player's position when it is from the first group (the player); a tile is put
/// there, removing any entity. Overwriting the player forgets its position.
pub open spec fn placed(old: LevelEditor, new: LevelEditor, obj: BanditObj) -> bool {
    let c = old.cursor;
    let g = old.data@;
    let h = new.data@;
    &&& h.wid == g.wid
    &&& h.hgt == g.hgt
    &&& h.effects == g.effects
    &&& new.cursor == old.cursor
    &&& new.cur_idx == old.cur_idx
    &&& new.cur_rot == old.cur_rot
    &&& new.just_deleted == old.just_deleted
    &&& match obj {
        BanditObj::En(e) => {
            &&& ents_put(g.ents, h.ents, c, e)
            &&& floor_put(g.tiles, h.tiles, c)
            &&& new.pl_pos == if old.cur_idx == 0 {
                Some(c)
            } else if player_at(g, c) {
                None
            } else {
                old.pl_pos
            }
        },
        BanditObj::Tile(t) => {
            &&& tiles_put(g.tiles, h.tiles, c, t)
            &&& h.ents == g.ents.remove(c)
            &&& new.pl_pos == if player_at(g, c) { None } else { old.pl_pos }
        },
    }
}


/// The step a key asks the cursor to take: the arrows, WASD and HJKL.
pub open spec fn key_dir(k: Key) -> Option<Point> {
    match k {
        Key::Left => Some(Point { x: -1i32, y: 0i32 }),
        Key::Right => Some(Point { x: 1i32, y: 0i32 }),
        Key::Down => Some(Point { x: 0i32, y: -1i32 }),
        Key::Up => Some(Point { x: 0i32, y: 1i32 }),
        Key::Char(c) => if c == 'a' || c == 'h' {
            Some(Point { x: -1i32, y: 0i32 })
        } else if c == 'd' || c == 'l' {
            Some(Point { x: 1i32, y: 0i32 })
        } else if c == 's' || c == 'j' {
            Some(Point { x: 0i32, y: -1i32 })
        } else if c == 'w' || c == 'k' {
            Some(Point { x: 0i32, y: 1i32 })
        } else {
            None
        },
        _ => None,
    }
}

/// The step a key asks for, if any: the arrows, WASD and HJKL.
pub fn key_step(k: Key) -> (r: Option<Point>)
    ensures
        r == key_dir(k),
{
    match k {
        Key::Left => Some(Point::new(-1, 0)),
        Key::Right => Some(Point::new(1, 0)),
        Key::Down => Some(Point::new(0, -1)),
        Key::Up => Some(Point::new(0, 1)),
        Key::Char(c) => if c == 'a' || c == 'h' {
            Some(Point::new(-1, 0))
        } else if c == 'd' || c == 'l' {
            Some(Point::new(1, 0))
        } else if c == 's' || c == 'j' {
            Some(Point::new(0, -1))
        } else if c == 'w' || c == 'k' {
            Some(Point::new(0, 1))
        } else {
            None
        },
        _ => None,
    }
}

/// The point lies inside the border of the grid.
pub open spec fn inside(p: Point, g: GridView) -> bool {
    0 < p.x < g.wid - 1 && 0 < p.y < g.hgt - 1
}

/// The editor after a key: a step key moves the cursor when it stays inside the border; `o`
/// asks to pick an object; `y` and `i` turn the object; `m` toggles whether the entity under
/// the cursor can be pushed; enter places the object (not a second player); backspace
/// deletes the entity under the cursor, or else puts a floor there; escape asks for the menu.
pub open spec fn handled(o: LevelEditor, n: LevelEditor, objs: Seq<Seq<BanditObj>>, key: Key, r: EditEvent) -> bool {
    let c = o.cursor;
    let g = o.data@;
    let h = n.data@;
    if key_dir(key) is Some {
        let nw = c.add_spec(key_dir(key)->0);
        &&& r == EditEvent::Null
        &&& n == if inside(nw, g) { LevelEditor { cursor: nw, just_deleted: false, ..o } } else { o }
    } else if key == Key::Char('o') {
        r == EditEvent::PickObj && n == LevelEditor { cur_rot: 0, just_deleted: false, ..o }
    } else if key == Key::Char('y') || key == Key::Char('i') {
        &&& r == EditEvent::Null
        &&& n == LevelEditor { cur_rot: spec_rot(o.cur_rot, objs[o.cur_idx as int].len() as int, key == Key::Char('y')), ..o }
    } else if key == Key::Char('m') {
        &&& r == EditEvent::Null
        &&& h == GridView {
            ents: if g.ents.contains_key(c) {
                g.ents.insert(c, Ent { movable: !g.ents[c].movable, ..g.ents[c] })
            } else {
                g.ents
            },
            ..g
        }
        &&& n == LevelEditor { data: n.data, ..o }
    } else if key == Key::Enter {
        &&& r == EditEvent::Null
        &&& if o.cur_idx == 0 && o.pl_pos is Some {
            n == o
        } else {
            placed(o, LevelEditor { just_deleted: o.just_deleted, ..n }, o.spec_obj(objs)) && !n.just_deleted
        }
    } else if key == Key::Backspace {
        &&& r == EditEvent::Null
        &&& n.cursor == o.cursor && n.cur_idx == o.cur_idx && n.cur_rot == o.cur_rot && n.just_deleted
        &&& h.wid == g.wid && h.hgt == g.hgt && h.effects == g.effects
        &&& if g.ents.contains_key(c) {
            &&& h.ents == g.ents.remove(c)
            &&& h.tiles == g.tiles
            &&& n.pl_pos == if player_at(g, c) { None } else { o.pl_pos }
        } else {
            &&& h.ents == g.ents
            &&& floor_put(g.tiles, h.tiles, c)
            &&& n.pl_pos == o.pl_pos
        }
    } else if key == Key::Esc {
        r == EditEvent::Menu && n == o
    } else {
        r == EditEvent::Null && n == o
    }
}

/// The key reads the current object: `y` and `i` turn it, and enter places it (unless it is
/// the player and the player is already placed).
pub open spec fn needs_obj(e: LevelEditor, key: Key) -> bool {
    ||| key == Key::Char('y')
    ||| key == Key::Char('i')
    ||| key == Key::Enter && !(e.cur_idx == 0 && e.pl_pos is Some)
}

impl LevelEditor {
    /// Do something with a key.
    pub fn handle_key(&mut self, objs: &ObjList, key: Key) -> (r: EditEvent)
        requires
            old(self).wf(),
            needs_obj(*old(self), key) ==> old(self).ready(objs@),
        ensures
            final(self).wf(),
            old(self).ready(objs@) ==> final(self).ready(objs@),
            handled(*old(self), *final(self), objs@, key, r),
    {
        let c = self.cursor;
        let ghost g = self.data@;
        match key_step(key) {
            Some(mv) => {
                let new = c.add(mv);
                let wid = self.data.wid() as i32;
                let hgt = self.data.hgt() as i32;
                if new.x >= wid - 1 || new.x <= 0 || new.y >= hgt - 1 || new.y <= 0 {
                    return EditEvent::Null;
                }
                self.just_deleted = false;
                self.cursor = new;
                return EditEvent::Null;
            },
            None => {},
        }
        if key == Key::Char('o') {
            self.cur_rot = 0;
            self.just_deleted = false;
            return EditEvent::PickObj;
        } else if key == Key::Char('y') {
            self.rot(objs, true);
        } else if key == Key::Char('i') {
            self.rot(objs, false);
        } else if key == Key::Char('m') {
            match self.data.del_ent(c) {
                Some(mut e) => {
                    e.movable = !e.movable;
                    self.data.insert_entity(e, c);
                    assert(self.data@.ents =~= g.ents.insert(c, Ent { movable: !g.ents[c].movable, ..g.ents[c] }));
                },
                None => {
                    assert(self.data@.ents =~= g.ents);
                },
            }
        } else if key == Key::Enter {
            if self.cur_idx == 0 && self.pl_pos.is_some() {
                return EditEvent::Null;
            }
            self.place(objs);
            self.just_deleted = false;
        } else if key == Key::Backspace {
            match self.data.del_ent(c) {
                Some(e) => {
                    if e.is_player() {
                        self.pl_pos = None;
                    }
                },
                None => {
                    self.data.insert_tile(Tile::floor(), c);
                    assert(self.data@.tiles.dom() =~= g.tiles.dom().insert(c));
                },
            }
            self.just_deleted = true;
            assert(key_dir(key) is None);
            assert(self.cursor == old(self).cursor && self.cur_idx == old(self).cur_idx && self.just_deleted);
            assert(self.data@.wid == g.wid && self.data@.hgt == g.hgt && self.data@.effects == g.effects);
            proof {
                if g.ents.contains_key(c) {
                    assert(self.data@.ents == g.ents.remove(c));
                    assert(self.data@.tiles == g.tiles);
                    assert(self.pl_pos == if player_at(g, c) { None } else { old(self).pl_pos });
                } else {
                    assert(self.data@.ents == g.ents);
                    assert(floor_put(g.tiles, self.data@.tiles, c));
                }
            }
            assert(handled(*old(self), *self, objs@, key, EditEvent::Null));
        } else if key == Key::Esc {
            return EditEvent::Menu;
        }
        EditEvent::Null
    }
}

/// How a point of a grid is drawn in the editor: its entity, on dark grey when it cannot be
/// pushed; else its tile; else a blank.
pub open spec fn base_cell(g: GridView, p: Point) -> StyleCh {
    if g.ents.contains_key(p) {
        if g.ents[p].movable {
            g.ents[p].ch
        } else {
            StyleCh { bg: Some(immovable_clr()), ..g.ents[p].ch }
        }
    } else if g.tiles.contains_key(p) {
        g.tiles[p].spec_cur_state().ch
    } else {
        StyleCh { content: ' ', fg: None, bg: None }
    }
}

/// The cursor shows what is under it rather than the object to place: after a deletion, or
/// while the player is placed and would be placed again.
pub open spec fn cursor_shows_under(e: LevelEditor) -> bool {
    e.just_deleted || (e.pl_pos is Some && e.cur_idx == 0)
}

/// How a point is drawn in the editor: the cursor, when shown, is the character of the object
/// to place (or of what is under it) on the cursor colour.
pub open spec fn draw_cell(e: LevelEditor, objs: Seq<Seq<BanditObj>>, show: bool, p: Point) -> StyleCh {
    let g = e.data@;
    if p == e.cursor && show {
        let content = if cursor_shows_under(e) {
            if g.ents.contains_key(p) { g.ents[p].ch.content } else { g.tiles[p].spec_cur_state().ch.content }
        } else {
            e.spec_obj(objs).spec_ch().content
        };
        StyleCh { content, fg: None, bg: Some(cursor_clr()) }
    } else {
        base_cell(g, p)
    }
}

/// The editor can be drawn: the grid has a border, and a shown cursor has something to show.
pub open spec fn drawable(e: LevelEditor, objs: Seq<Seq<BanditObj>>, show: bool) -> bool {
    &&& e.wf()
    &&& e.data@.wid >= 2
    &&& e.data@.hgt >= 2
    &&& show && inside(e.cursor, e.data@) ==> if cursor_shows_under(e) {
        e.data@.ents.contains_key(e.cursor) || e.data@.tiles.contains_key(e.cursor)
    } else {
        e.ready(objs)
    }
}

impl LevelEditor {
    /// What is drawn of this level editor: the rows inside the border, top row first, each
    /// left to right.
    pub fn draw_rows(&self, objs: &ObjList, show_cursor: bool) -> (rows: Vec<Vec<StyleCh>>)
        requires
            drawable(*self, objs@, show_cursor),
        ensures
            rows@.len() == self.data@.hgt - 2,
            forall|k: int| 0 <= k < rows@.len() ==> (#[trigger] rows@[k])@.len() == self.data@.wid - 2,
            forall|k: int, j: int| 0 <= k < rows@.len() && 0 <= j < self.data@.wid - 2 ==> #[trigger] rows@[k]@[j]
                == draw_cell(*self, objs@, show_cursor, Point { x: (j + 1) as i32, y: (self.data@.hgt - 2 - k) as i32 }),
    {
        let wid = self.data.wid();
        let hgt = self.data.hgt();
        let mut rows: Vec<Vec<StyleCh>> = Vec::new();
        let mut k: usize = 0;
        while k < hgt - 2
            invariant
                drawable(*self, objs@, show_cursor),
                wid == self.data@.wid,
                hgt == self.data@.hgt,
                k <= hgt - 2,
                rows@.len() == k,
                forall|m: int| 0 <= m < k ==> (#[trigger] rows@[m])@.len() == wid - 2,
                forall|m: int, j: int| 0 <= m < k && 0 <= j < wid - 2 ==> #[trigger] rows@[m]@[j]
                    == draw_cell(*self, objs@, show_cursor, Point { x: (j + 1) as i32, y: (hgt - 2 - m) as i32 }),
            decreases hgt - 2 - k,
        {
            let y = hgt - 2 - k;
            let mut row: Vec<StyleCh> = Vec::new();
            let mut x: usize = 1;
            while x <= wid - 2
                invariant
                    drawable(*self, objs@, show_cursor),
                    wid == self.data@.wid,
                    hgt == self.data@.hgt,
                    1 <= y <= hgt - 2,
                    1 <= x <= wid - 1,
                    row@.len() == x - 1,
                    forall|j: int| 0 <= j < x - 1 ==> #[trigger] row@[j]
                        == draw_cell(*self, objs@, show_cursor, Point { x: (j + 1) as i32, y: y as i32 }),
                decreases wid - 1 - x,
            {
                let p = Point::new(x as i32, y as i32);
                let mut ch = match self.data.get_ent(p) {
                    Some(e) => if e.movable { e.ch } else { e.ch.on(Color::DarkGrey) },
                    None => match self.data.get_map(p) {
                        Some(t) => t.cur_state().ch,
                        None => StyleCh::plain(' '),
                    },
                };
                if p == self.cursor && show_cursor {
                    let content = if self.just_deleted || (self.pl_pos.is_some() && self.cur_idx == 0) {
                        match self.data.get_ent(p) {
                            Some(e) => e.ch.content,
                            None => match self.data.get_map(p) {
                                Some(t) => t.cur_state().ch.content,
                                None => ' ',
                            },
                        }
                    } else {
                        self.get_cur_ch(objs).content
                    };
                    ch = StyleCh::plain(content).on(Color::DarkCyan);
                }
                row.push(ch);
                x = x + 1;
            }
            rows.push(row);
            k = k + 1;
        }
        rows
    }
}

/// A number that can be changed by messages, kept within optional bounds.
#[derive(Clone, Copy, Debug, PartialEq, Eq, Structural)]
pub struct Counter {
    /// Current number stored in the counter.
    pub value: i32,
    /// Optional minimum.
    pub min: Option<i32>,
    /// Optional maximum.
    pub max: Option<i32>,
    /// Identifier of this counter.
    pub id: usize,
}

/// The value lies within the optional bounds.
pub open spec fn within(value: int, min: Option<i32>, max: Option<i32>) -> bool {
    &&& (min matches Some(m) ==> value >= m)
    &&& (max matches Some(m) ==> value <= m)
}

/// The counter after setting its value, unless the value is out of its bounds.
pub open spec fn spec_set_value(c: Counter, value: i32) -> Counter {
    if within(value as int, c.min, c.max) {
        Counter { value, ..c }
    } else {
        c
    }
}

/// The counter after a message `id:change` (split at colons): when the first part is its
/// identifier and there is a second part, the change is added to its value (within its bounds);
/// any other message leaves it as it is. `None` when the change is not a number or the sum does
/// not fit.
pub open spec fn spec_receive(c: Counter, data: Seq<char>) -> Option<Counter> {
    let parts = spec_split(data, ':');
    if spec_parse_usize(parts[0]) == Some(c.id) && parts.len() >= 2 {
        match spec_parse_i32(parts[1]) {
            Some(d) => if i32::MIN <= c.value + d <= i32::MAX {
                Some(spec_set_value(c, (c.value + d) as i32))
            } else {
                None
            },
            None => None,
        }
    } else {
        Some(c)
    }
}

impl Counter {
    /// Construct an empty counter with the given identifier.
    pub fn new(id: usize) -> (c: Self)
        ensures
            c == (Counter { value: 0, min: None, max: None, id }),
    {
        Counter { value: 0, min: None, max: None, id }
    }

    /// Sets the value of the counter. Will not change the value if it is below the minimum or
    /// above the maximum.
    pub fn set_value(&mut self, value: i32)
        ensures
            *final(self) == spec_set_value(*old(self), value),
    {
        match self.min {
            Some(m) => {
                if value < m {
                    return;
                }
            },
            None => {},
        }
        match self.max {
            Some(m) => {
                if value > m {
                    return;
                }
            },
            None => {},
        }
        self.value = value;
    }

    /// Sets the maximum of the counter.
    pub fn with_max(self, max: i32) -> (c: Self)
        ensures
            c == (Counter { max: Some(max), ..self }),
    {
        Counter { max: Some(max), ..self }
    }

    /// Sets the minimum of the counter.
    pub fn with_min(self, min: i32) -> (c: Self)
        ensures
            c == (Counter { min: Some(min), ..self }),
    {
        Counter { min: Some(min), ..self }
    }
}

impl Counter {
    /// Read a message. False when the message names this counter but its change is not a
    /// number, or the new value would not fit; the counter is then unchanged.
    pub fn receive(&mut self, data: &str) -> (ok: bool)
        ensures
            match spec_receive(*old(self), data@) {
                Some(c) => ok && *final(self) == c,
                None => !ok && *final(self) == *old(self),
            },
    {
        let chars = chars_of(data);
        let parts = split(chars.as_slice(), ':');
        proof {
            lemma_split_from_len(data@, ':', 0);
        }
        match parse_usize(parts[0].as_slice()) {
            Some(id) => {
                if id != self.id || parts.len() < 2 {
                    return true;
                }
            },
            None => {
                return true;
            },
        }
        match parse_i32(parts[1].as_slice()) {
            Some(d) => {
                let sum = self.value as i64 + d as i64;
                if sum < i32::MIN as i64 || sum > i32::MAX as i64 {
                    return false;
                }
                self.set_value(sum as i32);
                true
            },
            None => false,
        }
    }
}

/// The player's position to start editing a puzzle with: none while the puzzle still has the
/// default position of a puzzle without a player.
pub fn editor_pl_pos(pzl: &Puzzle) -> (r: Option<Point>)
    ensures
        r == if pzl.pl_pos == spec_pl_default_pos() { None } else { Some(pzl.pl_pos) },
{
    if pzl.pl_pos.x == -69 && pzl.pl_pos.y == -420 {
        None
    } else {
        Some(pzl.pl_pos)
    }
}

/// Finish editing a puzzle that is to be kept: with a player placed, its identifier is
/// updated and the player's position recorded; without one nothing changes and false says so.
pub fn save_edit(pzl: &mut Puzzle, pl_pos: Option<Point>) -> (ok: bool)
    requires
        writable(old(pzl).data@, old(pzl).data@.wid + 1),
    ensures
        ok == pl_pos is Some,
        ok ==> final(pzl).data == old(pzl).data && final(pzl).name == old(pzl).name
            && final(pzl).pl_pos == pl_pos->0 && final(pzl).id as nat == spec_text_id(old(pzl).spec_file_repr()),
        !ok ==> *final(pzl) == *old(pzl),
{
    match pl_pos {
        Some(p) => {
            pzl.update();
            pzl.pl_pos = p;
            true
        },
        None => false,
    }
}

/// A new pack of the given name: the secret name gives a copy of the standard puzzles under
/// that name; any other name an empty pack.
pub fn new_pack(name: String, std_pzls: &PuzzlePack) -> (p: PuzzlePack)
    ensures
        p.name == name,
        spec_text_id(name@) == crate::loader::saver::SUPER_SECRET_NAME as nat ==> p.pzls@.len() == std_pzls.pzls@.len()
            && forall|k: int| 0 <= k < p.pzls@.len() ==> {
                &&& (#[trigger] p.pzls@[k]).data@.same_as(std_pzls.pzls@[k].data@)
                &&& p.pzls@[k].pl_pos == std_pzls.pzls@[k].pl_pos
                &&& p.pzls@[k].name == std_pzls.pzls@[k].name
                &&& p.pzls@[k].id == std_pzls.pzls@[k].id
            },
        spec_text_id(name@) != crate::loader::saver::SUPER_SECRET_NAME as nat ==> p.pzls@.len() == 0,
{
    if is_secret(name.as_str()) {
        let mut pck = std_pzls.clone();
        pck.name = name;
        pck
    } else {
        PuzzlePack::new(name)
    }
}
/// Only the first group of the object list holds the player, and it holds nothing else.
pub open spec fn player_group(objs: Seq<Seq<BanditObj>>) -> bool {
    forall|i: int, j: int| 0 <= i < objs.len() && 0 <= j < objs[i].len() ==>
        ((#[trigger] objs[i][j] is En && objs[i][j]->En_0.tp is Player) <==> i == 0)
}

/// The editor's recorded player position is exactly where a player stands: there is a player
/// at a point if and only if the position recorded is that point, so at most one player stands
/// on the grid.
pub open spec fn player_tracked(e: LevelEditor) -> bool {
    forall|q: Point| #[trigger] player_at(e.data@, q) <==> e.pl_pos == Some(q)
}

/// Every key keeps the recorded player position exactly where the single player stands, when
/// only the first group of the object list holds the player.
pub proof fn lemma_keys_track_player(o: LevelEditor, n: LevelEditor, objs: Seq<Seq<BanditObj>>, key: Key, r: EditEvent)
    requires
        handled(o, n, objs, key, r),
        player_group(objs),
        player_tracked(o),
        needs_obj(o, key) ==> o.ready(objs),
    ensures
        player_tracked(n),
{
    let c = o.cursor;
    let g = o.data@;
    let h = n.data@;
    if key_dir(key) is Some || key == Key::Char('o') || key == Key::Char('y') || key == Key::Char('i') || key == Key::Esc {
    } else if key == Key::Char('m') {
        assert forall|q: Point| #[trigger] player_at(h, q) <==> player_at(g, q) by {}
    } else if key == Key::Enter {
        if !(o.cur_idx == 0 && o.pl_pos is Some) {
            let obj = o.spec_obj(objs);
            match obj {
                BanditObj::En(e) => {
                    assert(objs[o.cur_idx as int][o.cur_rot as int] == obj);
                    assert forall|q: Point| #[trigger] player_at(h, q) <==> n.pl_pos == Some(q) by {
                        if q != c {
                            if g.ents.contains_key(q) {
                                assert(h.ents[q] == g.ents[q]);
                            }
                            assert(player_at(h, q) <==> player_at(g, q));
                        }
                    }
                },
                BanditObj::Tile(t) => {
                    assert forall|q: Point| #[trigger] player_at(h, q) <==> n.pl_pos == Some(q) by {
                        if q != c {
                            assert(player_at(h, q) <==> player_at(g, q));
                        }
                    }
                },
            }
        }
    } else if key == Key::Backspace {
        assert forall|q: Point| #[trigger] player_at(h, q) <==> n.pl_pos == Some(q) by {
            assert(player_at(g, q) <==> o.pl_pos == Some(q));
            assert(player_at(g, c) <==> o.pl_pos == Some(c));
            if g.ents.contains_key(c) {
                assert(h.ents == g.ents.remove(c));
                if q != c {
                    assert(player_at(h, q) <==> player_at(g, q));
                } else {
                    assert(!player_at(h, q));
                }
            } else {
                assert(h.ents == g.ents);
                assert(player_at(h, q) <==> player_at(g, q));
            }
        }
    }
}

/// Turning the object goes round its group: up gives the next rotation (the first after the
/// last), down the one before (the last before the first); the rotation stays in the group,
/// and turning up then down, or down then up, gives it back.
pub proof fn lemma_rot_laws(rot: usize, len: int)
    requires
        rot < len <= usize::MAX,
    ensures
        spec_rot(rot, len, true) == (rot + 1) % len,
        spec_rot(rot, len, false) == (rot + len - 1) % len,
        spec_rot(rot, len, true) < len,
        spec_rot(rot, len, false) < len,
        spec_rot(spec_rot(rot, len, true), len, false) == rot,
        spec_rot(spec_rot(rot, len, false), len, true) == rot,
{
    if rot + 1 < len {
        assert((rot + 1) % len == rot + 1) by (nonlinear_arith)
            requires
                0 <= rot + 1 < len,
        ;
    } else {
        assert((rot + 1) % len == 0) by (nonlinear_arith)
            requires
                rot + 1 == len,
                len > 0,
        ;
    }
    if rot == 0 {
        assert((rot + len - 1) % len == len - 1) by (nonlinear_arith)
            requires
                rot == 0,
                len > 0,
        ;
    } else {
        assert((rot + len - 1) % len == rot - 1) by (nonlinear_arith)
            requires
                0 < rot < len,
        ;
    }
}

} // verus!
