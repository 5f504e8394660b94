//! The puzzle grid: tiles and entities at points, and the commands that change them.

use vstd::prelude::*;
use crate::assoc::PointMap;
use crate::entity::Ent;
use crate::point::Point;
use crate::style::StyleCh;
use crate::{Frame, Tile, Vfx};

verus! {

/// A change to the flags of an entity.
#[derive(Clone, Copy, Debug, PartialEq, Eq, Structural)]
pub enum EntMod {
    /// Invert the current active state.
    Flip,
    /// Set the current active state.
    SetActive,
    /// Remember the current active state as the previous one, then clear it.
    Reset,
    /// Record that the entity has been updated.
    MarkUpdated,
}

/// A change to the flags of a tile.
#[derive(Clone, Copy, Debug, PartialEq, Eq, Structural)]
pub enum TileMod {
    /// Invert the active state.
    Flip,
    /// Set the active state.
    SetActive,
    /// Clear the active state.
    Reset,
}

/// A change to the grid, issued by activations and moves and carried out afterwards.
#[derive(Clone, Copy, Debug, PartialEq, Eq, Structural)]
pub enum Cmd {
    /// Change the flags of the entity at a point.
    ModifyEntity(Point, EntMod),
    /// Change the flags of the tile at a point.
    ModifyTile(Point, TileMod),
    /// Show a one frame effect of the given character at a point.
    Effect(Point, StyleCh),
    /// Move the entity at the first point to the second.
    MoveTo(Point, Point),
    /// Move the entity the commands are carried out for by the given offset.
    DisplaceHere(Point),
    /// Record that the entity the commands are carried out for has been updated.
    MarkUpdatedHere,
    /// The puzzle is won.
    Win,
}

/// An entity after a change to its flags.
pub open spec fn spec_mod_ent(e: Ent, m: EntMod) -> Ent {
    match m {
        EntMod::Flip => Ent { active: !e.active, ..e },
        EntMod::SetActive => Ent { active: true, ..e },
        EntMod::Reset => Ent { prev_active: e.active, active: false, ..e },
        EntMod::MarkUpdated => Ent { updated: true, ..e },
    }
}

/// A tile after a change to its flags.
pub open spec fn spec_mod_tile(t: Tile, m: TileMod) -> Tile {
    match m {
        TileMod::Flip => Tile { active: !t.active, ..t },
        TileMod::SetActive => Tile { active: true, ..t },
        TileMod::Reset => Tile { active: false, ..t },
    }
}

/// The entities after moving the one at `from` to `to` (replacing any there). Nothing moves
/// when there is no entity at `from`, or `to` lies outside the coordinate range.
pub open spec fn spec_move(ents: Map<Point, Ent>, from: Point, to: Point) -> Map<Point, Ent> {
    if ents.contains_key(from) && to.in_range() {
        ents.remove(from).insert(to, ents[from])
    } else {
        ents
    }
}

/// What a visual effect shows: its frames and the frame it is at.
pub open spec fn effect_view(e: (Point, Vfx)) -> (Point, Seq<Frame>, usize) {
    (e.0, e.1.frames@, e.1.cur_idx)
}

/// The contents of a grid.
pub struct GridView {
    pub wid: usize,
    pub hgt: usize,
    pub tiles: Map<Point, Tile>,
    pub ents: Map<Point, Ent>,
    pub effects: Seq<(Point, Seq<Frame>, usize)>,
}

/// A grid of tiles and entities.
pub struct Grid {
    wid: usize,
    hgt: usize,
    tiles: PointMap<Tile>,
    ents: PointMap<Ent>,
    vfx: Vec<(Point, Vfx)>,
}

impl View for Grid {
    type V = GridView;

    closed spec fn view(&self) -> GridView {
        GridView {
            wid: self.wid,
            hgt: self.hgt,
            tiles: self.tiles@,
            ents: self.ents@,
            effects: self.vfx@.map_values(|e: (Point, Vfx)| effect_view(e)),
        }
    }
}

impl Grid {
    /// Every tile and entity lies in the coordinate range and is well formed.
    #[verifier::type_invariant]
    closed spec fn inv(self) -> bool {
        &&& forall|p: Point| #[trigger] self.tiles@.contains_key(p) ==> p.in_range() && self.tiles@[p].wf()
        &&& forall|p: Point| #[trigger] self.ents@.contains_key(p) ==> p.in_range() && self.ents@[p].wf()
        &&& forall|i: int| 0 <= i < self.vfx@.len() ==> (#[trigger] self.vfx@[i]).1.cur_idx < self.vfx@[i].1.frames@.len()
    }

    /// An empty grid of the given size.
    pub fn new(wid: usize, hgt: usize) -> (g: Self)
        ensures
            g@ == (GridView {
                wid,
                hgt,
                tiles: Map::empty(),
                ents: Map::empty(),
                effects: Seq::empty(),
            }),
    {
        let g = Grid { wid, hgt, tiles: PointMap::new(), ents: PointMap::new(), vfx: Vec::new() };
        assert(g@.effects =~= Seq::<(Point, Seq<Frame>, usize)>::empty());
        g
    }

    /// Width of the grid.
    pub fn wid(&self) -> (w: usize)
        ensures
            w == self@.wid,
    {
        self.wid
    }

    /// Height of the grid.
    pub fn hgt(&self) -> (h: usize)
        ensures
            h == self@.hgt,
    {
        self.hgt
    }

    /// Change the size of the grid.
    pub fn set_size(&mut self, wid: usize, hgt: usize)
        ensures
            final(self)@ == (GridView { wid, hgt, ..old(self)@ }),
    {
        proof {
            use_type_invariant(&*self);
        }
        self.wid = wid;
        self.hgt = hgt;
    }

    /// The tile at a point, if any.
    pub fn get_map(&self, p: Point) -> (r: Option<&Tile>)
        ensures
            match r {
                Some(t) => self@.tiles.contains_key(p) && *t == self@.tiles[p] && t.wf() && p.in_range(),
                None => !self@.tiles.contains_key(p),
            },
    {
        proof {
            use_type_invariant(self);
        }
        self.tiles.get(p)
    }

    /// The entity at a point, if any.
    pub fn get_ent(&self, p: Point) -> (r: Option<&Ent>)
        ensures
            match r {
                Some(e) => self@.ents.contains_key(p) && *e == self@.ents[p] && e.wf() && p.in_range(),
                None => !self@.ents.contains_key(p),
            },
    {
        proof {
            use_type_invariant(self);
        }
        self.ents.get(p)
    }

    /// Put a tile at a point, replacing any tile there.
    pub fn insert_tile(&mut self, t: Tile, p: Point)
        requires
            p.in_range(),
            t.wf(),
        ensures
            final(self)@ == (GridView { tiles: old(self)@.tiles.insert(p, t), ..old(self)@ }),
    {
        proof {
            use_type_invariant(&*self);
        }
        let mut tiles = PointMap::new();
        std::mem::swap(&mut tiles, &mut self.tiles);
        tiles.insert(p, t);
        self.tiles = tiles;
    }

    /// Put an entity at a point, replacing any entity there.
    pub fn insert_entity(&mut self, e: Ent, p: Point)
        requires
            p.in_range(),
            e.wf(),
        ensures
            final(self)@ == (GridView { ents: old(self)@.ents.insert(p, e), ..old(self)@ }),
    {
        proof {
            use_type_invariant(&*self);
        }
        let mut ents = PointMap::new();
        std::mem::swap(&mut ents, &mut self.ents);
        ents.insert(p, e);
        self.ents = ents;
    }

    /// Remove the entity at a point, returning it.
    pub fn del_ent(&mut self, p: Point) -> (r: Option<Ent>)
        ensures
            final(self)@ == (GridView { ents: old(self)@.ents.remove(p), ..old(self)@ }),
            match r {
                Some(e) => old(self)@.ents.contains_key(p) && e == old(self)@.ents[p] && e.wf() && p.in_range(),
                None => !old(self)@.ents.contains_key(p),
            },
    {
        proof {
            use_type_invariant(&*self);
        }
        let mut ents = PointMap::new();
        std::mem::swap(&mut ents, &mut self.ents);
        let r = ents.remove(p);
        self.ents = ents;
        r
    }

    /// Remove the tile at a point, returning it.
    fn del_tile(&mut self, p: Point) -> (r: Option<Tile>)
        ensures
            final(self)@ == (GridView { tiles: old(self)@.tiles.remove(p), ..old(self)@ }),
            match r {
                Some(t) => old(self)@.tiles.contains_key(p) && t == old(self)@.tiles[p] && t.wf() && p.in_range(),
                None => !old(self)@.tiles.contains_key(p),
            },
    {
        proof {
            use_type_invariant(&*self);
        }
        let mut tiles = PointMap::new();
        std::mem::swap(&mut tiles, &mut self.tiles);
        let r = tiles.remove(p);
        self.tiles = tiles;
        r
    }

    /// The points that hold entities, in the order the entities were placed.
    pub fn entity_points(&self) -> (ps: Vec<Point>)
        ensures
            forall|p: Point| self@.ents.contains_key(p) <==> ps@.contains(p),
    {
        let mut ps: Vec<Point> = Vec::new();
        let mut i: usize = 0;
        let n = self.ents.len();
        while i < n
            invariant
                n == self.ents.entries().len(),
                i <= n,
                ps@.len() == i,
                forall|k: int| 0 <= k < i ==> #[trigger] ps@[k] == self.ents.entries()[k].0,
                forall|k: int| 0 <= k < i ==> self.ents@.contains_key(#[trigger] ps@[k]),
            decreases n - i,
        {
            let e = self.ents.entry(i);
            ps.push(e.0);
            i = i + 1;
        }
        proof {
            assert forall|p: Point| self@.ents.contains_key(p) implies ps@.contains(p) by {
                let k = choose|k: int| 0 <= k < self.ents.entries().len() && self.ents.entries()[k].0 == p;
                assert(ps@[k] == p);
            }
            assert forall|p: Point| ps@.contains(p) implies self@.ents.contains_key(p) by {
                let k = choose|k: int| 0 <= k < ps@.len() && ps@[k] == p;
                assert(self.ents@.contains_key(ps@[k]));
            }
        }
        ps
    }

    /// Change the flags of the entity at a point, if there is one.
    pub fn modify_entity(&mut self, p: Point, m: EntMod)
        ensures
            final(self)@ == (GridView { ents: spec_modify_ents(old(self)@.ents, p, m), ..old(self)@ }),
    {
        if let Some(mut e) = self.del_ent(p) {
            match m {
                EntMod::Flip => {
                    e.active = !e.active;
                },
                EntMod::SetActive => {
                    e.active = true;
                },
                EntMod::Reset => {
                    e.prev_active = e.active;
                    e.active = false;
                },
                EntMod::MarkUpdated => {
                    e.updated = true;
                },
            }
            self.insert_entity(e, p);
            assert(self@.ents =~= spec_modify_ents(old(self)@.ents, p, m));
        } else {
            assert(self@.ents =~= old(self)@.ents);
        }
    }

    /// Change the flags of the tile at a point, if there is one.
    pub fn modify_tile(&mut self, p: Point, m: TileMod)
        ensures
            final(self)@ == (GridView { tiles: spec_modify_tiles(old(self)@.tiles, p, m), ..old(self)@ }),
    {
        if let Some(mut t) = self.del_tile(p) {
            match m {
                TileMod::Flip => {
                    t.active = !t.active;
                },
                TileMod::SetActive => {
                    t.active = true;
                },
                TileMod::Reset => {
                    t.active = false;
                },
            }
            self.insert_tile(t, p);
            assert(self@.tiles =~= spec_modify_tiles(old(self)@.tiles, p, m));
        } else {
            assert(self@.tiles =~= old(self)@.tiles);
        }
    }

    /// Move the entity at `from` to `to`, replacing any entity there.
    pub fn move_ent(&mut self, from: Point, to: Point)
        ensures
            final(self)@ == (GridView { ents: spec_move(old(self)@.ents, from, to), ..old(self)@ }),
    {
        if to.x < -1_000_000_000 || to.x > 1_000_000_000 || to.y < -1_000_000_000 || to.y > 1_000_000_000 {
            return;
        }
        if let Some(e) = self.del_ent(from) {
            self.insert_entity(e, to);
            assert(self@.ents =~= spec_move(old(self)@.ents, from, to));
        } else {
            assert(self@.ents =~= spec_move(old(self)@.ents, from, to));
        }
    }

    /// Add a visual effect at a point.
    pub fn add_effect(&mut self, p: Point, v: Vfx)
        requires
            v.cur_idx < v.frames@.len(),
        ensures
            final(self)@ == (GridView { effects: old(self)@.effects.push((p, v.frames@, v.cur_idx)), ..old(self)@ }),
    {
        proof {
            use_type_invariant(&*self);
        }
        let mut vfx = Vec::new();
        std::mem::swap(&mut vfx, &mut self.vfx);
        let ghost old_vfx = vfx@;
        vfx.push((p, v));
        assert(vfx@.map_values(|e: (Point, Vfx)| effect_view(e)) =~= old_vfx.map_values(|e: (Point, Vfx)| effect_view(e)).push((p, v.frames@, v.cur_idx)));
        self.vfx = vfx;
    }

    /// Mark every entity as not yet updated.
    pub fn clear_updated(&mut self)
        ensures
            final(self)@ == (GridView { ents: spec_clear_updated(old(self)@.ents), ..old(self)@ }),
    {
        let ps = self.entity_points();
        let ghost start = self@;
        let mut i: usize = 0;
        while i < ps.len()
            invariant
                i <= ps@.len(),
                forall|p: Point| start.ents.contains_key(p) <==> ps@.contains(p),
                self@ == (GridView { ents: self@.ents, ..start }),
                self@.ents.dom() == start.ents.dom(),
                forall|p: Point| #[trigger] self@.ents.contains_key(p) ==> self@.ents[p] == (if ps@.subrange(0, i as int).contains(p) {
                    Ent { updated: false, ..start.ents[p] }
                } else {
                    start.ents[p]
                }),
            decreases ps@.len() - i,
        {
            let p = ps[i];
            let ghost before = self@;
            if let Some(mut e) = self.del_ent(p) {
                e.updated = false;
                self.insert_entity(e, p);
            }
            proof {
                assert(ps@.subrange(0, i + 1) =~= ps@.subrange(0, i as int).push(p));
                assert(self@.ents.dom() =~= start.ents.dom());
                assert forall|q: Point| #[trigger] self@.ents.contains_key(q) implies self@.ents[q] == (if ps@.subrange(0, i + 1).contains(q) {
                    Ent { updated: false, ..start.ents[q] }
                } else {
                    start.ents[q]
                }) by {
                    if q != p {
                        assert(ps@.subrange(0, i + 1).contains(q) == ps@.subrange(0, i as int).contains(q));
                    } else {
                        assert(ps@.subrange(0, i + 1)[i as int] == q);
                        assert(ps@.subrange(0, i + 1).contains(q));
                        if ps@.subrange(0, i as int).contains(q) {
                            assert(before.ents[q] == Ent { updated: false, ..start.ents[q] });
                        }
                    }
                }
            }
            i = i + 1;
        }
        proof {
            assert(ps@.subrange(0, ps@.len() as int) =~= ps@);
            assert(self@.ents =~= spec_clear_updated(start.ents));
        }
    }

    /// Carry out one command, for the entity at `here`. True when the command wins the
    /// puzzle.
    pub fn apply(&mut self, cmd: &Cmd, here: Point) -> (won: bool)
        ensures
            final(self)@ == spec_apply(old(self)@, *cmd, here),
            won == (*cmd is Win),
    {
        match cmd {
            Cmd::ModifyEntity(p, m) => {
                self.modify_entity(*p, *m);
                false
            },
            Cmd::ModifyTile(p, m) => {
                self.modify_tile(*p, *m);
                false
            },
            Cmd::Effect(p, ch) => {
                self.add_effect(*p, Vfx::new_opaque_single(*ch));
                false
            },
            Cmd::MoveTo(a, b) => {
                self.move_ent(*a, *b);
                false
            },
            Cmd::DisplaceHere(d) => {
                if here.x < -1_000_000_000 || here.x > 1_000_000_000 || here.y < -1_000_000_000 || here.y > 1_000_000_000
                    || d.x < -1_000_000_000 || d.x > 1_000_000_000 || d.y < -1_000_000_000 || d.y > 1_000_000_000 {
                    return false;
                }
                self.move_ent(here, here.add(*d));
                false
            },
            Cmd::MarkUpdatedHere => {
                self.modify_entity(here, EntMod::MarkUpdated);
                false
            },
            Cmd::Win => true,
        }
    }

    /// Carry out commands in order, for the entity at `here`. True when one of them wins the
    /// puzzle.
    pub fn actuate_comms(&mut self, cmds: &Vec<Cmd>, here: Point) -> (won: bool)
        ensures
            final(self)@ == spec_apply_all(old(self)@, cmds@, here),
            won == spec_wins(cmds@),
    {
        let mut won = false;
        let mut i: usize = 0;
        while i < cmds.len()
            invariant
                i <= cmds@.len(),
                self@ == spec_apply_all(old(self)@, cmds@.subrange(0, i as int), here),
                won == spec_wins(cmds@.subrange(0, i as int)),
            decreases cmds@.len() - i,
        {
            let w = self.apply(&cmds[i], here);
            proof {
                let pre = cmds@.subrange(0, i as int);
                let next = cmds@.subrange(0, i + 1);
                assert(next.drop_last() =~= pre);
                assert(next.last() == cmds@[i as int]);
            }
            won = won || w;
            i = i + 1;
        }
        assert(cmds@.subrange(0, cmds@.len() as int) =~= cmds@);
        won
    }
}

/// The entities, all marked as not yet updated.
pub open spec fn spec_clear_updated(ents: Map<Point, Ent>) -> Map<Point, Ent> {
    Map::new(|p: Point| ents.contains_key(p), |p: Point| Ent { updated: false, ..ents[p] })
}

/// The entities after changing the flags of the one at `p`, if there is one.
pub open spec fn spec_modify_ents(ents: Map<Point, Ent>, p: Point, m: EntMod) -> Map<Point, Ent> {
    if ents.contains_key(p) {
        ents.insert(p, spec_mod_ent(ents[p], m))
    } else {
        ents
    }
}

/// The tiles after changing the flags of the one at `p`, if there is one.
pub open spec fn spec_modify_tiles(tiles: Map<Point, Tile>, p: Point, m: TileMod) -> Map<Point, Tile> {
    if tiles.contains_key(p) {
        tiles.insert(p, spec_mod_tile(tiles[p], m))
    } else {
        tiles
    }
}

/// The contents of a grid after carrying out one command for the entity at `here`.
pub open spec fn spec_apply(g: GridView, cmd: Cmd, here: Point) -> GridView {
    match cmd {
        Cmd::ModifyEntity(p, m) => GridView { ents: spec_modify_ents(g.ents, p, m), ..g },
        Cmd::ModifyTile(p, m) => GridView { tiles: spec_modify_tiles(g.tiles, p, m), ..g },
        Cmd::Effect(p, ch) => GridView { effects: g.effects.push((p, seq![Frame::Opaque(ch)], 0usize)), ..g },
        Cmd::MoveTo(a, b) => GridView { ents: spec_move(g.ents, a, b), ..g },
        Cmd::DisplaceHere(d) => if here.in_range() && d.in_range() {
            GridView { ents: spec_move(g.ents, here, here.add_spec(d)), ..g }
        } else {
            g
        },
        Cmd::MarkUpdatedHere => GridView { ents: spec_modify_ents(g.ents, here, EntMod::MarkUpdated), ..g },
        Cmd::Win => g,
    }
}

/// The contents of a grid after carrying out commands in order for the entity at `here`.
pub open spec fn spec_apply_all(g: GridView, cmds: Seq<Cmd>, here: Point) -> GridView
    decreases cmds.len(),
{
    if cmds.len() == 0 {
        g
    } else {
        spec_apply(spec_apply_all(g, cmds.drop_last(), here), cmds.last(), here)
    }
}

/// Carrying out commands keeps the size of the grid.
pub proof fn lemma_apply_all_size(g: GridView, cmds: Seq<Cmd>, here: Point)
    ensures
        spec_apply_all(g, cmds, here).wid == g.wid,
        spec_apply_all(g, cmds, here).hgt == g.hgt,
    decreases cmds.len(),
{
    if cmds.len() > 0 {
        lemma_apply_all_size(g, cmds.drop_last(), here);
    }
}

/// One of the commands wins the puzzle.
pub open spec fn spec_wins(cmds: Seq<Cmd>) -> bool {
    exists|i: int| 0 <= i < cmds.len() && cmds[i] is Win
}


impl Grid {
    /// A grid holds finitely many tiles and entities.
    pub proof fn lemma_finite(g: Grid)
        ensures
            g@.tiles.dom().finite(),
            g@.ents.dom().finite(),
    {
        g.tiles.lemma_finite();
        g.ents.lemma_finite();
    }
}

/// The effects after each moves to its next frame; those that have shown all their frames
/// are gone.
pub open spec fn spec_update_vfx(es: Seq<(Point, Seq<Frame>, usize)>) -> Seq<(Point, Seq<Frame>, usize)>
    decreases es.len(),
{
    if es.len() == 0 {
        seq![]
    } else {
        let e = es.last();
        let rest = spec_update_vfx(es.drop_last());
        if e.2 + 1 == e.1.len() {
            rest
        } else {
            rest.push((e.0, e.1, (e.2 + 1) as usize))
        }
    }
}

impl Grid {
    /// Move every effect to its next frame, removing those that have shown all their frames.
    pub fn update_vfx(&mut self)
        ensures
            final(self)@ == (GridView { effects: spec_update_vfx(old(self)@.effects), ..old(self)@ }),
    {
        proof {
            use_type_invariant(&*self);
        }
        let mut vfx: Vec<(Point, Vfx)> = Vec::new();
        std::mem::swap(&mut vfx, &mut self.vfx);
        let ghost es = vfx@.map_values(|e: (Point, Vfx)| effect_view(e));
        assert(es =~= old(self)@.effects);
        let mut kept: Vec<(Point, Vfx)> = Vec::new();
        let n = vfx.len();
        let mut i: usize = 0;
        while i < n
            invariant
                n == es.len(),
                i <= n,
                vfx@.len() == n - i,
                forall|k: int| 0 <= k < vfx@.len() ==> (#[trigger] vfx@[k]).1.cur_idx < vfx@[k].1.frames@.len(),
                forall|k: int| 0 <= k < kept@.len() ==> (#[trigger] kept@[k]).1.cur_idx < kept@[k].1.frames@.len(),
                forall|k: int| 0 <= k < vfx@.len() ==> effect_view(#[trigger] vfx@[k]) == es[i + k],
                kept@.map_values(|e: (Point, Vfx)| effect_view(e)) == spec_update_vfx(es.take(i as int)),
            decreases n - i,
        {
            assert(vfx@[0].1.cur_idx < vfx@[0].1.frames@.len());
            let (p, mut v) = vfx.remove(0);
            // Reading the length bounds the frame index, so the next frame can be counted.
            let _len = v.frames.len();
            assert(es.take(i + 1).drop_last() =~= es.take(i as int));
            assert(effect_view((p, v)) == es[i as int]);
            let ghost before = kept@;
            let done = v.update();
            if !done {
                kept.push((p, v));
                assert(kept@.map_values(|e: (Point, Vfx)| effect_view(e)) =~= before.map_values(|e: (Point, Vfx)| effect_view(e)).push((p, v.frames@, v.cur_idx)));
            }
            i = i + 1;
            assert forall|k: int| 0 <= k < vfx@.len() implies effect_view(#[trigger] vfx@[k]) == es[i + k] by {}
        }
        assert(es.take(n as int) =~= es);
        self.vfx = kept;
    }
}

impl GridView {
    /// The two grids have the same size and effects, tiles and entities at the same points,
    /// and each agrees in every field with its counterpart.
    pub open spec fn same_as(self, other: GridView) -> bool {
        &&& self.wid == other.wid
        &&& self.hgt == other.hgt
        &&& self.effects == other.effects
        &&& self.tiles.dom() == other.tiles.dom()
        &&& self.ents.dom() == other.ents.dom()
        &&& forall|p: Point| #[trigger] self.tiles.contains_key(p) ==> self.tiles[p].same_as(other.tiles[p])
        &&& forall|p: Point| #[trigger] self.ents.contains_key(p) ==> self.ents[p].same_as(other.ents[p])
    }
}

/// A copy of the tiles of a grid.
fn clone_tiles(m: &PointMap<Tile>) -> (r: PointMap<Tile>)
    requires
        forall|p: Point| #[trigger] m@.contains_key(p) ==> m@[p].wf() && p.in_range(),
    ensures
        r@.dom() == m@.dom(),
        forall|p: Point| #[trigger] r@.contains_key(p) ==> r@[p].same_as(m@[p]),
{
    let mut r: PointMap<Tile> = PointMap::new();
    let n = m.len();
    let mut i: usize = 0;
    while i < n
        invariant
            n == m.entries().len(),
            i <= n,
            forall|p: Point| #[trigger] r@.contains_key(p) <==> exists|k: int| 0 <= k < i && m.entries()[k].0 == p,
            forall|p: Point| #[trigger] r@.contains_key(p) ==> m@.contains_key(p) && r@[p].same_as(m@[p]),
        decreases n - i,
    {
        let e = m.entry(i);
        let t = e.1.clone();
        r.insert(e.0, t);
        proof {
            assert forall|p: Point| #[trigger] r@.contains_key(p) <==> exists|k: int| 0 <= k < i + 1 && m.entries()[k].0 == p by {
                if p == e.0 {
                    assert(m.entries()[i as int].0 == p);
                }
            }
        }
        i = i + 1;
    }
    proof {
        assert forall|p: Point| #[trigger] m@.contains_key(p) implies r@.contains_key(p) by {
            let k = choose|k: int| 0 <= k < m.entries().len() && m.entries()[k].0 == p;
        }
        assert(r@.dom() =~= m@.dom());
    }
    r
}

/// A copy of the entities of a grid.
fn clone_ents(m: &PointMap<Ent>) -> (r: PointMap<Ent>)
    requires
        forall|p: Point| #[trigger] m@.contains_key(p) ==> m@[p].wf() && p.in_range(),
    ensures
        r@.dom() == m@.dom(),
        forall|p: Point| #[trigger] r@.contains_key(p) ==> r@[p].same_as(m@[p]),
{
    let mut r: PointMap<Ent> = PointMap::new();
    let n = m.len();
    let mut i: usize = 0;
    while i < n
        invariant
            n == m.entries().len(),
            i <= n,
            forall|p: Point| #[trigger] r@.contains_key(p) <==> exists|k: int| 0 <= k < i && m.entries()[k].0 == p,
            forall|p: Point| #[trigger] r@.contains_key(p) ==> m@.contains_key(p) && r@[p].same_as(m@[p]),
        decreases n - i,
    {
        let e = m.entry(i);
        let t = e.1.clone();
        r.insert(e.0, t);
        proof {
            assert forall|p: Point| #[trigger] r@.contains_key(p) <==> exists|k: int| 0 <= k < i + 1 && m.entries()[k].0 == p by {
                if p == e.0 {
                    assert(m.entries()[i as int].0 == p);
                }
            }
        }
        i = i + 1;
    }
    proof {
        assert forall|p: Point| #[trigger] m@.contains_key(p) implies r@.contains_key(p) by {
            let k = choose|k: int| 0 <= k < m.entries().len() && m.entries()[k].0 == p;
        }
        assert(r@.dom() =~= m@.dom());
    }
    r
}

impl Clone for Grid {
    fn clone(&self) -> (g: Self)
        ensures
            g@.same_as(self@),
    {
        proof {
            use_type_invariant(self);
        }
        let tiles = clone_tiles(&self.tiles);
        let ents = clone_ents(&self.ents);
        let mut vfx: Vec<(Point, Vfx)> = Vec::new();
        let mut i: usize = 0;
        while i < self.vfx.len()
            invariant
                i <= self.vfx@.len(),
                vfx@.len() == i,
                forall|k: int| 0 <= k < self.vfx@.len() ==> (#[trigger] self.vfx@[k]).1.cur_idx < self.vfx@[k].1.frames@.len(),
                forall|k: int| 0 <= k < i ==> #[trigger] effect_view(vfx@[k]) == effect_view(self.vfx@[k]),
            decreases self.vfx@.len() - i,
        {
            let e = &self.vfx[i];
            vfx.push((e.0, e.1.clone()));
            i = i + 1;
        }
        assert forall|k: int| 0 <= k < vfx@.len() implies (#[trigger] vfx@[k]).1.cur_idx < vfx@[k].1.frames@.len() by {
            assert(effect_view(vfx@[k]) == effect_view(self.vfx@[k]));
        }
        let g = Grid { wid: self.wid, hgt: self.hgt, tiles, ents, vfx };
        proof {
            assert forall|p: Point| #[trigger] g.tiles@.contains_key(p) implies p.in_range() && g.tiles@[p].wf() by {
                assert(self.tiles@.contains_key(p));
            }
            assert forall|p: Point| #[trigger] g.ents@.contains_key(p) implies p.in_range() && g.ents@[p].wf() by {
                assert(self.ents@.contains_key(p));
            }
            assert(g@.effects =~= self@.effects);
        }
        g
    }
}
/// A character as the effects shown at a point change it, the earliest effect first.
pub open spec fn with_effects(es: Seq<(Point, Seq<Frame>, usize)>, p: Point, c: StyleCh) -> StyleCh
    decreases es.len(),
{
    if es.len() == 0 {
        c
    } else {
        let e = es.last();
        let before = with_effects(es.drop_last(), p, c);
        if e.0 == p {
            e.1[e.2 as int].spec_map(before)
        } else {
            before
        }
    }
}

/// How a point of a grid is shown in a game: what the editor draws there, changed by the
/// effects shown at it.
pub open spec fn shown_cell(g: GridView, p: Point) -> StyleCh {
    with_effects(g.effects, p, crate::editor::base_cell(g, p))
}

impl Grid {
    /// How the point is shown in a game.
    pub fn show_cell(&self, p: Point) -> (c: StyleCh)
        ensures
            c == shown_cell(self@, p),
    {
        proof {
            use_type_invariant(self);
        }
        let mut c = match self.get_ent(p) {
            Some(e) => e.repr(),
            None => match self.get_map(p) {
                Some(t) => t.cur_state().ch,
                None => StyleCh::plain(' '),
            },
        };
        let ghost es = self@.effects;
        let mut i: usize = 0;
        while i < self.vfx.len()
            invariant
                es == self@.effects,
                i <= self.vfx@.len(),
                forall|k: int| 0 <= k < self.vfx@.len() ==> (#[trigger] self.vfx@[k]).1.cur_idx < self.vfx@[k].1.frames@.len(),
                c == with_effects(es.take(i as int), p, crate::editor::base_cell(self@, p)),
            decreases self.vfx@.len() - i,
        {
            let e = &self.vfx[i];
            assert(es.take(i + 1).drop_last() =~= es.take(i as int));
            assert(es[i as int] == effect_view(self.vfx@[i as int]));
            if e.0 == p {
                c = e.1.modify_txt(&c);
            }
            i = i + 1;
        }
        assert(es.take(es.len() as int) =~= es);
        c
    }

    /// The grid as shown in a game: its rows, top row first, each left to right.
    pub fn show_rows(&self) -> (rows: Vec<Vec<StyleCh>>)
        requires
            self@.wid <= i32::MAX,
            self@.hgt <= i32::MAX,
        ensures
            rows@.len() == self@.hgt,
            forall|k: int| 0 <= k < rows@.len() ==> (#[trigger] rows@[k])@.len() == self@.wid,
            forall|k: int, j: int| 0 <= k < rows@.len() && 0 <= j < self@.wid ==> #[trigger] rows@[k]@[j]
                == shown_cell(self@, Point { x: j as i32, y: (self@.hgt - 1 - k) as i32 }),
    {
        let wid = self.wid();
        let hgt = self.hgt();
        let mut rows: Vec<Vec<StyleCh>> = Vec::new();
        let mut k: usize = 0;
        while k < hgt
            invariant
                wid == self@.wid <= i32::MAX,
                hgt == self@.hgt <= i32::MAX,
                k <= hgt,
                rows@.len() == k,
                forall|m: int| 0 <= m < k ==> (#[trigger] rows@[m])@.len() == wid,
                forall|m: int, j: int| 0 <= m < k && 0 <= j < wid ==> #[trigger] rows@[m]@[j]
                    == shown_cell(self@, Point { x: j as i32, y: (hgt - 1 - m) as i32 }),
            decreases hgt - k,
        {
            let y = hgt - 1 - k;
            let mut row: Vec<StyleCh> = Vec::new();
            let mut x: usize = 0;
            while x < wid
                invariant
                    wid == self@.wid <= i32::MAX,
                    y < hgt == self@.hgt <= i32::MAX,
                    x <= wid,
                    row@.len() == x,
                    forall|j: int| 0 <= j < x ==> #[trigger] row@[j] == shown_cell(self@, Point { x: j as i32, y: y as i32 }),
                decreases wid - x,
            {
                row.push(self.show_cell(Point::new(x as i32, y as i32)));
                x = x + 1;
            }
            rows.push(row);
            k = k + 1;
        }
        rows
    }
}


/// Flipping a tile inverts its active flag and changes nothing else, so flipping twice gives
/// the tile back.
pub proof fn lemma_flip_tile(t: Tile)
    ensures
        spec_mod_tile(t, TileMod::Flip).active == !t.active,
        spec_mod_tile(t, TileMod::Flip).inact == t.inact,
        spec_mod_tile(t, TileMod::Flip).act == t.act,
        spec_mod_tile(t, TileMod::Flip).handlers == t.handlers,
        spec_mod_tile(spec_mod_tile(t, TileMod::Flip), TileMod::Flip) == t,
{
}

/// Flipping an entity inverts its active flag and changes nothing else, so flipping twice
/// gives the entity back.
pub proof fn lemma_flip_ent(e: Ent)
    ensures
        spec_mod_ent(e, EntMod::Flip).active == !e.active,
        spec_mod_ent(e, EntMod::Flip).prev_active == e.prev_active,
        spec_mod_ent(e, EntMod::Flip).updated == e.updated,
        spec_mod_ent(spec_mod_ent(e, EntMod::Flip), EntMod::Flip) == e,
{
}

/// Carrying out a flip of a tile twice leaves the grid as it was; once, it inverts the tile's
/// active flag there, if the point has a tile.
pub proof fn lemma_flip_tile_twice(g: GridView, p: Point, here: Point)
    ensures
        g.tiles.contains_key(p) ==> spec_apply(g, Cmd::ModifyTile(p, TileMod::Flip), here).tiles[p].active == !g.tiles[p].active,
        spec_apply(spec_apply(g, Cmd::ModifyTile(p, TileMod::Flip), here), Cmd::ModifyTile(p, TileMod::Flip), here) == g,
{
    let g1 = spec_apply(g, Cmd::ModifyTile(p, TileMod::Flip), here);
    let g2 = spec_apply(g1, Cmd::ModifyTile(p, TileMod::Flip), here);
    if g.tiles.contains_key(p) {
        lemma_flip_tile(g.tiles[p]);
        assert(g2.tiles =~= g.tiles);
    } else {
        assert(g2.tiles =~= g.tiles);
    }
}

/// Carrying out a flip of an entity twice leaves the grid as it was; once, it inverts the
/// entity's active flag there, if the point has an entity.
pub proof fn lemma_flip_ent_twice(g: GridView, p: Point, here: Point)
    ensures
        g.ents.contains_key(p) ==> spec_apply(g, Cmd::ModifyEntity(p, EntMod::Flip), here).ents[p].active == !g.ents[p].active,
        spec_apply(spec_apply(g, Cmd::ModifyEntity(p, EntMod::Flip), here), Cmd::ModifyEntity(p, EntMod::Flip), here) == g,
{
    let g1 = spec_apply(g, Cmd::ModifyEntity(p, EntMod::Flip), here);
    let g2 = spec_apply(g1, Cmd::ModifyEntity(p, EntMod::Flip), here);
    if g.ents.contains_key(p) {
        lemma_flip_ent(g.ents[p]);
        assert(g2.ents =~= g.ents);
    } else {
        assert(g2.ents =~= g.ents);
    }
}
} // verus!
