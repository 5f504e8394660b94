//! Sources, conditions and effects of activations.

use vstd::prelude::*;
use crate::beam::{Beam, Clr, Inputs, is_unit_dir, spec_port_dir, spec_port_num, set_port, port_dir, port_num};
use crate::grid::{Cmd, EntMod, GridView, Grid, TileMod};
use crate::point::Point;
use crate::port::Clrs;
use crate::entity::{Ent, EntType};
use crate::style::StyleCh;
use crate::Tile;

verus! {

/// A possible source of activation for an entity or tile.
#[derive(Clone, Copy, PartialEq, Eq, Debug, Structural)]
pub enum ActSource {
    /// An object such as a button.
    Obj,
    /// A laser beam.
    Laser,
    /// An object moves on to this tile.
    WalkOn,
    /// A player moves on to this tile.
    PlWalkOn,
    /// A player walks off of this tile.
    WalkOff,
    /// A player or an object is still on this tile at the start of the frame.
    StayOn,
    /// Frame ends.
    FrameEnd,
    /// Frame begins.
    FrameStart,
    /// Lasers fire.
    LaserTime,
}

/// A condition that must be met for an effect to occur.
#[derive(Debug)]
pub enum Cond {
    /// Tile at this position must be active.
    TActive,
    /// Entity at this position must be active.
    EActive,
    /// Entity at this position must have been active on the previous frame.
    EPrevActive,
    /// Condition must not be met.
    Not(Box<Cond>),
    /// Both conditions must be met.
    Chain(Box<Cond>, Box<Cond>),
}

impl Clone for Cond {
    fn clone(&self) -> (c: Self)
        ensures
            c == *self,
        decreases self,
    {
        match self {
            Cond::TActive => Cond::TActive,
            Cond::EActive => Cond::EActive,
            Cond::EPrevActive => Cond::EPrevActive,
            Cond::Not(c) => Cond::Not(Box::new((**c).clone())),
            Cond::Chain(a, b) => Cond::Chain(Box::new((**a).clone()), Box::new((**b).clone())),
        }
    }
}

impl Cond {
    /// Join two conditions together in a Chain variant.
    pub fn chain(self, other: Self) -> (c: Self)
        ensures
            c == Cond::Chain(Box::new(self), Box::new(other)),
    {
        Cond::Chain(Box::new(self), Box::new(other))
    }

    /// Invert a condition.
    pub fn not(self) -> (c: Self)
        ensures
            c == Cond::Not(Box::new(self)),
    {
        Cond::Not(Box::new(self))
    }

    /// Make a conditional effect out of this condition and the effect.
    pub fn cond_ef(self, ef: ActEffect) -> (e: ActEffect)
        ensures
            e == ActEffect::CondEf(self, Box::new(ef)),
    {
        ActEffect::CondEf(self, Box::new(ef))
    }
}

/// A possible effect of being activated.
#[derive(Debug)]
pub enum ActEffect {
    /// Propagate this activation to surrounding tiles/entities.
    Prop,
    /// Invert the current active state.
    Inv,
    /// Set the current active state to true.
    MkActive,
    /// Set the previous active state to the current one, then set the current one to false.
    Reset,
    /// Win the puzzle.
    Win,
    /// Does nothing.
    Null,
    /// Conditionally does something.
    CondEf(Cond, Box<ActEffect>),
    /// Fire a laser beam(!).
    Laser(Beam),
    /// Do both effects.
    Chain(Box<ActEffect>, Box<ActEffect>),
    /// The effect water has on what walks on it. It issues no command, so it changes nothing.
    Murder,
}

impl Clone for ActEffect {
    fn clone(&self) -> (e: Self)
        ensures
            e == *self,
        decreases self,
    {
        match self {
            ActEffect::Prop => ActEffect::Prop,
            ActEffect::Inv => ActEffect::Inv,
            ActEffect::MkActive => ActEffect::MkActive,
            ActEffect::Reset => ActEffect::Reset,
            ActEffect::Win => ActEffect::Win,
            ActEffect::Null => ActEffect::Null,
            ActEffect::CondEf(c, e) => ActEffect::CondEf(c.clone(), Box::new((**e).clone())),
            ActEffect::Laser(b) => ActEffect::Laser(*b),
            ActEffect::Chain(a, b) => ActEffect::Chain(Box::new((**a).clone()), Box::new((**b).clone())),
            ActEffect::Murder => ActEffect::Murder,
        }
    }
}

impl Clone for ActHandler {
    fn clone(&self) -> (h: Self)
        ensures
            h == *self,
        decreases self,
    {
        ActHandler { src: self.src, ef: self.ef.clone() }
    }
}

/// A copy of a list of handlers.
pub fn clone_handlers(hs: &Vec<ActHandler>) -> (r: Vec<ActHandler>)
    ensures
        r@ == hs@,
{
    let mut r: Vec<ActHandler> = Vec::new();
    let mut i: usize = 0;
    while i < hs.len()
        invariant
            i <= hs@.len(),
            r@ == hs@.subrange(0, i as int),
        decreases hs@.len() - i,
    {
        r.push(hs[i].clone());
        i = i + 1;
        assert(r@ =~= hs@.subrange(0, i as int));
    }
    assert(hs@.subrange(0, hs@.len() as int) =~= hs@);
    r
}

impl ActEffect {
    /// Put both effects in a Chain variant.
    pub fn chain(self, other: Self) -> (e: Self)
        ensures
            e == ActEffect::Chain(Box::new(self), Box::new(other)),
    {
        ActEffect::Chain(Box::new(self), Box::new(other))
    }

    /// Every beam this effect can fire goes one step in one of the eight directions.
    pub open spec fn wf(self) -> bool
        decreases self,
    {
        match self {
            ActEffect::CondEf(_, e) => e.wf(),
            ActEffect::Laser(b) => is_unit_dir(b.dir),
            ActEffect::Chain(a, b) => a.wf() && b.wf(),
            _ => true,
        }
    }

    /// The number of effects nested in this one.
    pub open spec fn size(self) -> nat
        decreases self,
    {
        match self {
            ActEffect::CondEf(_, e) => 1 + e.size(),
            ActEffect::Chain(a, b) => 1 + a.size() + b.size(),
            _ => 1,
        }
    }
}

/// Handles an activation from a source.
#[derive(Debug)]
pub struct ActHandler {
    pub src: ActSource,
    pub ef: ActEffect,
}

impl ActHandler {
    /// Create a handler for the source that does the effect.
    pub fn new(src: ActSource, ef: ActEffect) -> (h: Self)
        ensures
            h == (ActHandler { src, ef }),
    {
        Self { src, ef }
    }
}

/// Every handler's effect is well formed.
pub open spec fn handlers_wf(hs: Seq<ActHandler>) -> bool {
    forall|i: int| 0 <= i < hs.len() ==> #[trigger] hs[i].ef.wf()
}


/// What a run of activations produces: the commands to carry out, and the colours arriving at
/// objects afterwards; nothing when activations nest deeper than the fuel allows.
pub type Outcome = Option<(Seq<Cmd>, Map<Point, Seq<Clr>>)>;

/// The outcome of doing one thing and then another.
pub open spec fn seq_outcome(first: Outcome, rest: Outcome) -> Outcome {
    match first {
        None => None,
        Some((c1, _)) => match rest {
            None => None,
            Some((c2, i2)) => Some((c1 + c2, i2)),
        },
    }
}

/// True if the condition is met for the object at `pos`.
pub open spec fn spec_check(c: Cond, g: GridView, pos: Point) -> bool
    decreases c,
{
    match c {
        Cond::TActive => g.tiles.contains_key(pos) && g.tiles[pos].active,
        Cond::EActive => g.ents.contains_key(pos) && g.ents[pos].active,
        Cond::EPrevActive => g.ents.contains_key(pos) && g.ents[pos].prev_active,
        Cond::Not(c) => !spec_check(*c, g, pos),
        Cond::Chain(a, b) => spec_check(*a, g, pos) && spec_check(*b, g, pos),
    }
}

/// How far a beam can still travel from `cur` before it leaves the coordinate range.
pub open spec fn walk_measure(dir: Point, cur: Point) -> int {
    let dx: int = if dir.x == 1 { cur.x as int } else if dir.x == -1 { -cur.x } else { 0 };
    let dy: int = if dir.y == 1 { cur.y as int } else if dir.y == -1 { -cur.y } else { 0 };
    3000000000 - dx - dy
}

/// The colours at the eight ports of an object nothing has reached yet.
pub open spec fn no_inputs() -> Seq<Clr> {
    Seq::new(8, |i: int| Clr::Black)
}

/// The effect of activating the effect `ef` of the object at `pos`, with `fuel` bounding the
/// depth of nested activations and laser beams.
pub open spec fn spec_actuate(ef: ActEffect, g: GridView, pos: Point, inp: Map<Point, Seq<Clr>>, fuel: nat) -> Outcome
    decreases fuel, 1int, ef.size(),
{
    match ef {
        ActEffect::Inv => Some(
            (seq![Cmd::ModifyEntity(pos, EntMod::Flip), Cmd::ModifyTile(pos, TileMod::Flip)], inp),
        ),
        ActEffect::MkActive => Some(
            (seq![Cmd::ModifyEntity(pos, EntMod::SetActive), Cmd::ModifyTile(pos, TileMod::SetActive)], inp),
        ),
        ActEffect::Reset => Some(
            (seq![Cmd::ModifyEntity(pos, EntMod::Reset), Cmd::ModifyTile(pos, TileMod::Reset)], inp),
        ),
        ActEffect::Prop => if fuel == 0 {
            None
        } else {
            spec_neighbours(g, pos, 0, inp, (fuel - 1) as nat)
        },
        ActEffect::Win => Some((seq![Cmd::Win], inp)),
        ActEffect::Laser(b) => if fuel == 0 {
            None
        } else {
            spec_walk(b, g, pos, inp, (fuel - 1) as nat)
        },
        ActEffect::Chain(a, b) => {
            let r1 = spec_actuate(*a, g, pos, inp, fuel);
            match r1 {
                None => None,
                Some((c1, i1)) => seq_outcome(r1, spec_actuate(*b, g, pos, i1, fuel)),
            }
        },
        ActEffect::CondEf(c, e) => if spec_check(c, g, pos) {
            spec_actuate(*e, g, pos, inp, fuel)
        } else {
            Some((seq![], inp))
        },
        _ => Some((seq![], inp)),
    }
}

/// The effect of one handler on an activation from `src`: its effect if the sources match.
pub open spec fn spec_handler(h: ActHandler, g: GridView, src: ActSource, pos: Point, inp: Map<Point, Seq<Clr>>, fuel: nat) -> Outcome
    decreases fuel, 2int, 0int,
{
    if h.src == src {
        spec_actuate(h.ef, g, pos, inp, fuel)
    } else {
        Some((seq![], inp))
    }
}

/// The effect of the handlers from the `i`-th on, one after the other.
pub open spec fn spec_handlers(hs: Seq<ActHandler>, i: int, g: GridView, src: ActSource, pos: Point, inp: Map<Point, Seq<Clr>>, fuel: nat) -> Outcome
    decreases fuel, 3int, hs.len() - i,
{
    if i < 0 || i >= hs.len() {
        Some((seq![], inp))
    } else {
        let r1 = spec_handler(hs[i], g, src, pos, inp, fuel);
        match r1 {
            None => None,
            Some((c1, i1)) => seq_outcome(r1, spec_handlers(hs, i + 1, g, src, pos, i1, fuel)),
        }
    }
}

/// The effect of activating an entity from `src`.
pub open spec fn spec_ent_activate(e: Ent, g: GridView, src: ActSource, pos: Point, inp: Map<Point, Seq<Clr>>, fuel: nat) -> Outcome
    decreases fuel, 4int, 0int,
{
    spec_handlers(e.handlers@, 0, g, src, pos, inp, fuel)
}

/// The effect of activating a tile from `src`.
pub open spec fn spec_tile_activate(t: Tile, g: GridView, src: ActSource, pos: Point, inp: Map<Point, Seq<Clr>>, fuel: nat) -> Outcome
    decreases fuel, 4int, 0int,
{
    spec_handlers(t.handlers@, 0, g, src, pos, inp, fuel)
}

/// The effect of activating the entity and then the tile of each neighbour of `pos`, from the
/// `k`-th neighbour on (neighbours in port order), as objects.
pub open spec fn spec_neighbours(g: GridView, pos: Point, k: int, inp: Map<Point, Seq<Clr>>, fuel: nat) -> Outcome
    decreases fuel, 5int, 8 - k,
{
    if k < 0 || k >= 8 {
        Some((seq![], inp))
    } else {
        let p = pos.add_spec(spec_port_dir(k));
        let r1 = if g.ents.contains_key(p) {
            spec_ent_activate(g.ents[p], g, ActSource::Obj, p, inp, fuel)
        } else {
            Some((seq![], inp))
        };
        match r1 {
            None => None,
            Some((c1, i1)) => {
                let r2 = if g.tiles.contains_key(p) {
                    spec_tile_activate(g.tiles[p], g, ActSource::Obj, p, i1, fuel)
                } else {
                    Some((seq![], i1))
                };
                match r2 {
                    None => None,
                    Some((c2, i2)) => seq_outcome(Some((c1 + c2, i2)), spec_neighbours(g, pos, k + 1, i2, fuel)),
                }
            },
        }
    }
}

/// The effect of a beam travelling on from `cur`. It crosses empty cells, drawing itself,
/// until it reaches a point without a tile or with an opaque tile, where it stops, or an
/// entity. The entity records the colour arriving at the port facing the beam; a goal of the
/// beam's colour is activated unless that port already had a colour; then the entity's
/// outputs travel on as beams of their own.
pub open spec fn spec_walk(b: Beam, g: GridView, cur: Point, inp: Map<Point, Seq<Clr>>, fuel: nat) -> Outcome
    decreases fuel, 6int, walk_measure(b.dir, cur),
{
    let nxt = cur.add_spec(b.dir);
    if !is_unit_dir(b.dir) || !cur.in_range() || !nxt.in_range() || !g.tiles.contains_key(nxt)
        || g.tiles[nxt].spec_cur_state().opaque {
        Some((seq![], inp))
    } else if g.ents.contains_key(nxt) {
        if fuel == 0 {
            None
        } else {
            let e = g.ents[nxt];
            let port = spec_port_num(b.dir);
            let prop = !(inp.contains_key(nxt) && inp[nxt][port] != Clr::Black);
            let before = if inp.contains_key(nxt) { inp[nxt] } else { no_inputs() };
            let inp1 = inp.insert(nxt, before.update(port, b.clr));
            let r1 = if prop && e.tp == EntType::Goal(b.clr) {
                spec_ent_activate(e, g, ActSource::Laser, nxt, inp1, fuel)
            } else {
                Some((seq![], inp1))
            };
            match r1 {
                None => None,
                Some((c1, inp2)) => {
                    let arriving = if inp2.contains_key(nxt) { inp2[nxt] } else { no_inputs() };
                    seq_outcome(r1, spec_outs(e.spec_outputs(arriving), g, nxt, 0, inp2, (fuel - 1) as nat))
                },
            }
        }
    } else {
        let r = spec_walk(b, g, nxt, inp, fuel);
        match r {
            None => None,
            Some((c, i)) => Some((seq![Cmd::Effect(nxt, StyleCh { content: b.spec_draw_char(), fg: Some(b.clr.spec_to_color()), bg: None })] + c, i)),
        }
    }
}

/// The effect of the beams leaving an object at `pos` through its ports from the `o`-th on.
pub open spec fn spec_outs(outs: Seq<Clr>, g: GridView, pos: Point, o: int, inp: Map<Point, Seq<Clr>>, fuel: nat) -> Outcome
    decreases fuel, 7int, 8 - o,
{
    if o < 0 || o >= 8 {
        Some((seq![], inp))
    } else if outs[o] != Clr::Black {
        let r1 = spec_walk(Beam { clr: outs[o], dir: spec_port_dir(o) }, g, pos, inp, fuel);
        match r1 {
            None => None,
            Some((c1, i1)) => seq_outcome(r1, spec_outs(outs, g, pos, o + 1, i1, fuel)),
        }
    } else {
        spec_outs(outs, g, pos, o + 1, inp, fuel)
    }
}

impl Cond {
    /// Returns true if the condition is met. Requires the map and the position of the object
    /// that is checking the condition.
    pub fn check(&self, map: &Grid, pos: Point) -> (r: bool)
        ensures
            r == spec_check(*self, map@, pos),
        decreases self,
    {
        match self {
            Cond::TActive => match map.get_map(pos) {
                Some(t) => t.active,
                None => false,
            },
            Cond::EActive => match map.get_ent(pos) {
                Some(e) => e.active,
                None => false,
            },
            Cond::EPrevActive => match map.get_ent(pos) {
                Some(e) => e.prev_active,
                None => false,
            },
            Cond::Not(c) => !c.check(map, pos),
            Cond::Chain(c1, c2) => c1.check(map, pos) && c2.check(map, pos),
        }
    }
}

/// Two command lists, one after the other.
fn join_cmds(first: Vec<Cmd>, rest: Vec<Cmd>) -> (r: Vec<Cmd>)
    ensures
        r@ == first@ + rest@,
{
    let mut first = first;
    let mut rest = rest;
    first.append(&mut rest);
    first
}

impl ActEffect {
    /// Return the commands needed to actuate this effect for the object at `pos`. Firing a
    /// laser records the colours arriving at objects in `inpts`. `fuel` bounds the depth of
    /// nested activations and laser beams; `None` when they nest deeper.
    pub fn actuate(&self, map: &Grid, pos: Point, inpts: &mut Inputs, fuel: u64) -> (r: Option<Vec<Cmd>>)
        requires
            self.wf(),
            pos.in_range(),
        ensures
            match r {
                Some(c) => spec_actuate(*self, map@, pos, old(inpts)@, fuel as nat) == Some((c@, final(inpts)@)),
                None => spec_actuate(*self, map@, pos, old(inpts)@, fuel as nat) is None,
            },
        decreases fuel, 1int, self.size(),
    {
        match self {
            ActEffect::Inv => {
                let mut cmds = Vec::new();
                cmds.push(Cmd::ModifyEntity(pos, EntMod::Flip));
                cmds.push(Cmd::ModifyTile(pos, TileMod::Flip));
                assert(cmds@ =~= seq![Cmd::ModifyEntity(pos, EntMod::Flip), Cmd::ModifyTile(pos, TileMod::Flip)]);
                Some(cmds)
            },
            ActEffect::MkActive => {
                let mut cmds = Vec::new();
                cmds.push(Cmd::ModifyEntity(pos, EntMod::SetActive));
                cmds.push(Cmd::ModifyTile(pos, TileMod::SetActive));
                assert(cmds@ =~= seq![Cmd::ModifyEntity(pos, EntMod::SetActive), Cmd::ModifyTile(pos, TileMod::SetActive)]);
                Some(cmds)
            },
            ActEffect::Reset => {
                let mut cmds = Vec::new();
                cmds.push(Cmd::ModifyEntity(pos, EntMod::Reset));
                cmds.push(Cmd::ModifyTile(pos, TileMod::Reset));
                assert(cmds@ =~= seq![Cmd::ModifyEntity(pos, EntMod::Reset), Cmd::ModifyTile(pos, TileMod::Reset)]);
                Some(cmds)
            },
            ActEffect::Prop => {
                if fuel == 0 {
                    return None;
                }
                prop_neighbours(map, pos, 0, inpts, fuel - 1)
            },
            ActEffect::Win => {
                let mut cmds = Vec::new();
                cmds.push(Cmd::Win);
                assert(cmds@ =~= seq![Cmd::Win]);
                Some(cmds)
            },
            ActEffect::Laser(bm) => {
                if fuel == 0 {
                    return None;
                }
                bm.propagate(map, pos, inpts, fuel - 1)
            },
            ActEffect::Chain(ef1, ef2) => {
                match ef1.actuate(map, pos, inpts, fuel) {
                    None => None,
                    Some(c1) => match ef2.actuate(map, pos, inpts, fuel) {
                        None => None,
                        Some(c2) => Some(join_cmds(c1, c2)),
                    },
                }
            },
            ActEffect::CondEf(c, ef) => {
                if c.check(map, pos) {
                    ef.actuate(map, pos, inpts, fuel)
                } else {
                    Some(Vec::new())
                }
            },
            _ => Some(Vec::new()),
        }
    }
}

impl ActHandler {
    /// Handle an activation from the source. Requires the map the object is in and its
    /// position.
    pub fn activate(&self, map: &Grid, src: ActSource, pos: Point, inpts: &mut Inputs, fuel: u64) -> (r: Option<Vec<Cmd>>)
        requires
            self.ef.wf(),
            pos.in_range(),
        ensures
            match r {
                Some(c) => spec_handler(*self, map@, src, pos, old(inpts)@, fuel as nat) == Some((c@, final(inpts)@)),
                None => spec_handler(*self, map@, src, pos, old(inpts)@, fuel as nat) is None,
            },
        decreases fuel, 2int, 0int,
    {
        if src == self.src {
            self.ef.actuate(map, pos, inpts, fuel)
        } else {
            Some(Vec::new())
        }
    }
}

/// Activate the handlers from the `i`-th on, one after the other.
pub fn handlers_activate(hs: &Vec<ActHandler>, i: usize, map: &Grid, src: ActSource, pos: Point, inpts: &mut Inputs, fuel: u64) -> (r: Option<Vec<Cmd>>)
    requires
        handlers_wf(hs@),
        pos.in_range(),
    ensures
        match r {
            Some(c) => spec_handlers(hs@, i as int, map@, src, pos, old(inpts)@, fuel as nat) == Some((c@, final(inpts)@)),
            None => spec_handlers(hs@, i as int, map@, src, pos, old(inpts)@, fuel as nat) is None,
        },
    decreases fuel, 3int, hs@.len() - i,
{
    if i >= hs.len() {
        return Some(Vec::new());
    }
    assert(hs@[i as int].ef.wf());
    match hs[i].activate(map, src, pos, inpts, fuel) {
        None => None,
        Some(c1) => match handlers_activate(hs, i + 1, map, src, pos, inpts, fuel) {
            None => None,
            Some(c2) => Some(join_cmds(c1, c2)),
        },
    }
}

/// Activate the entity and then the tile of each neighbour of `pos` from the `k`-th on, as
/// objects.
fn prop_neighbours(map: &Grid, pos: Point, k: usize, inpts: &mut Inputs, fuel: u64) -> (r: Option<Vec<Cmd>>)
    requires
        pos.in_range(),
    ensures
        match r {
            Some(c) => spec_neighbours(map@, pos, k as int, old(inpts)@, fuel as nat) == Some((c@, final(inpts)@)),
            None => spec_neighbours(map@, pos, k as int, old(inpts)@, fuel as nat) is None,
        },
    decreases fuel, 5int, 8 - k,
{
    if k >= 8 {
        return Some(Vec::new());
    }
    let p = pos.add(port_dir(k));
    let c1 = match map.get_ent(p) {
        Some(e) => match e.activate(map, ActSource::Obj, p, inpts, fuel) {
            None => {
                return None;
            },
            Some(c) => c,
        },
        None => Vec::new(),
    };
    let c2 = match map.get_map(p) {
        Some(t) => match t.activate(map, ActSource::Obj, p, inpts, fuel) {
            None => {
                return None;
            },
            Some(c) => c,
        },
        None => Vec::new(),
    };
    match prop_neighbours(map, pos, k + 1, inpts, fuel) {
        None => None,
        Some(c3) => {
            let r = join_cmds(join_cmds(c1, c2), c3);
            Some(r)
        },
    }
}

impl Ent {
    /// Do the effect of activating this entity, using the map and the position of this
    /// entity.
    pub fn activate(&self, map: &Grid, src: ActSource, pos: Point, inpts: &mut Inputs, fuel: u64) -> (r: Option<Vec<Cmd>>)
        requires
            self.wf(),
            pos.in_range(),
        ensures
            match r {
                Some(c) => spec_ent_activate(*self, map@, src, pos, old(inpts)@, fuel as nat) == Some((c@, final(inpts)@)),
                None => spec_ent_activate(*self, map@, src, pos, old(inpts)@, fuel as nat) is None,
            },
        decreases fuel, 4int, 0int,
    {
        handlers_activate(&self.handlers, 0, map, src, pos, inpts, fuel)
    }
}

impl Tile {
    /// Do the effect of activating this tile, using the map and the position of this tile.
    pub fn activate(&self, map: &Grid, src: ActSource, pos: Point, inpts: &mut Inputs, fuel: u64) -> (r: Option<Vec<Cmd>>)
        requires
            self.wf(),
            pos.in_range(),
        ensures
            match r {
                Some(c) => spec_tile_activate(*self, map@, src, pos, old(inpts)@, fuel as nat) == Some((c@, final(inpts)@)),
                None => spec_tile_activate(*self, map@, src, pos, old(inpts)@, fuel as nat) is None,
            },
        decreases fuel, 4int, 0int,
    {
        handlers_activate(&self.handlers, 0, map, src, pos, inpts, fuel)
    }
}

impl Beam {
    /// Return the commands needed to do the effects of this beam, fired from the object at
    /// `pos`.
    pub fn propagate(&self, map: &Grid, pos: Point, inpts: &mut Inputs, fuel: u64) -> (r: Option<Vec<Cmd>>)
        ensures
            match r {
                Some(c) => spec_walk(*self, map@, pos, old(inpts)@, fuel as nat) == Some((c@, final(inpts)@)),
                None => spec_walk(*self, map@, pos, old(inpts)@, fuel as nat) is None,
            },
        decreases fuel, 6int, walk_measure(self.dir, pos),
    {
        let d = self.dir;
        if !(-1 <= d.x && d.x <= 1 && -1 <= d.y && d.y <= 1 && !(d.x == 0 && d.y == 0)) {
            return Some(Vec::new());
        }
        if pos.x < -1000000000 || pos.x > 1000000000 || pos.y < -1000000000 || pos.y > 1000000000 {
            return Some(Vec::new());
        }
        let nxt = pos.add(d);
        if nxt.x < -1000000000 || nxt.x > 1000000000 || nxt.y < -1000000000 || nxt.y > 1000000000 {
            return Some(Vec::new());
        }
        let t = match map.get_map(nxt) {
            None => {
                return Some(Vec::new());
            },
            Some(t) => t,
        };
        if t.cur_state().opaque {
            return Some(Vec::new());
        }
        match map.get_ent(nxt) {
            Some(e) => {
                if fuel == 0 {
                    return None;
                }
                let port = port_num(d);
                let before = inpts.get(nxt);
                let prop = match before {
                    Some(c) => c[port] == Clr::Black,
                    None => true,
                };
                let base = match before {
                    Some(c) => c,
                    None => [Clr::Black, Clr::Black, Clr::Black, Clr::Black, Clr::Black, Clr::Black, Clr::Black, Clr::Black],
                };
                proof {
                    assert(base@ =~= (if old(inpts)@.contains_key(nxt) { old(inpts)@[nxt] } else { no_inputs() }));
                }
                inpts.set(nxt, set_port(base, port, self.clr));
                let is_goal = match e.tp {
                    EntType::Goal(c) => c == self.clr,
                    _ => false,
                };
                let c1 = if prop && is_goal {
                    match e.activate(map, ActSource::Laser, nxt, inpts, fuel) {
                        None => {
                            return None;
                        },
                        Some(c) => c,
                    }
                } else {
                    Vec::new()
                };
                let arriving = match inpts.get(nxt) {
                    Some(c) => c,
                    None => [Clr::Black, Clr::Black, Clr::Black, Clr::Black, Clr::Black, Clr::Black, Clr::Black, Clr::Black],
                };
                let outs = e.outputs(&arriving);
                match beams_out(&outs, map, nxt, 0, inpts, fuel - 1) {
                    None => None,
                    Some(c2) => Some(join_cmds(c1, c2)),
                }
            },
            None => {
                match self.propagate(map, nxt, inpts, fuel) {
                    None => None,
                    Some(rest) => {
                        let mut c = Vec::new();
                        c.push(Cmd::Effect(nxt, self.styled_char()));
                        Some(join_cmds(c, rest))
                    },
                }
            },
        }
    }
}

/// Fire the beams leaving an object at `pos` through its ports from the `o`-th on.
fn beams_out(outs: &Clrs, map: &Grid, pos: Point, o: usize, inpts: &mut Inputs, fuel: u64) -> (r: Option<Vec<Cmd>>)
    ensures
        match r {
            Some(c) => spec_outs(outs@, map@, pos, o as int, old(inpts)@, fuel as nat) == Some((c@, final(inpts)@)),
            None => spec_outs(outs@, map@, pos, o as int, old(inpts)@, fuel as nat) is None,
        },
    decreases fuel, 7int, 8 - o,
{
    if o >= 8 {
        return Some(Vec::new());
    }
    if outs[o] != Clr::Black {
        let bm = Beam::new(outs[o], port_dir(o));
        match bm.propagate(map, pos, inpts, fuel) {
            None => None,
            Some(c1) => match beams_out(outs, map, pos, o + 1, inpts, fuel) {
                None => None,
                Some(c2) => Some(join_cmds(c1, c2)),
            },
        }
    } else {
        beams_out(outs, map, pos, o + 1, inpts, fuel)
    }
}

/// A step of `dx` and `dy` between -1 and 1.
pub open spec fn is_step(d: Point) -> bool {
    -1 <= d.x <= 1 && -1 <= d.y <= 1
}

/// True if the player can walk on the tile at `p`: there is one and it does not block.
pub open spec fn spec_walkable_at(g: GridView, p: Point) -> bool {
    g.tiles.contains_key(p) && !g.tiles[p].spec_cur_state().blocking
}

/// The end of a successful player move on to `nx`: the tile there is told the player walked
/// on to it, and the player moves by `dir`.
pub open spec fn spec_finish_step(g: GridView, cmds: Seq<Cmd>, nx: Point, dir: Point, inp: Map<Point, Seq<Clr>>, fuel: nat) -> Option<(Seq<Cmd>, Map<Point, Seq<Clr>>, bool)> {
    let r = if g.tiles.contains_key(nx) {
        spec_tile_activate(g.tiles[nx], g, ActSource::PlWalkOn, nx, inp, fuel)
    } else {
        Some((seq![], inp))
    };
    match r {
        None => None,
        Some((c, i)) => Some((cmds + c + seq![Cmd::DisplaceHere(dir)], i, true)),
    }
}

/// The update of the player at `player` trying to move by `dir`. The player is marked as
/// updated. It moves when the tile ahead can be walked on and either holds no entity, or
/// holds a movable entity that can be pushed one step further on to a walkable tile without
/// an entity; the pushed entity's new tile is told something walked on to it. The result
/// says whether the player moved.
pub open spec fn spec_player_step(g: GridView, player: Point, dir: Point, inp: Map<Point, Seq<Clr>>, fuel: nat) -> Option<(Seq<Cmd>, Map<Point, Seq<Clr>>, bool)> {
    let start = seq![Cmd::MarkUpdatedHere];
    let nx = player.add_spec(dir);
    let nx2 = nx.add_spec(dir);
    if !spec_walkable_at(g, nx) {
        Some((start, inp, false))
    } else if g.ents.contains_key(nx) {
        if spec_walkable_at(g, nx2) && !g.ents.contains_key(nx2) && g.ents[nx].movable {
            let r1 = spec_tile_activate(g.tiles[nx2], g, ActSource::WalkOn, nx2, inp, fuel);
            match r1 {
                None => None,
                Some((c1, i1)) => spec_finish_step(g, start + seq![Cmd::MoveTo(nx, nx2)] + c1, nx, dir, i1, fuel),
            }
        } else {
            Some((start, inp, false))
        }
    } else {
        spec_finish_step(g, start, nx, dir, inp, fuel)
    }
}

/// The update of an entity: the player tries to move; anything else is only marked as
/// updated.
pub open spec fn spec_ent_update(e: Ent, g: GridView, player: Point, dir: Point, inp: Map<Point, Seq<Clr>>, fuel: nat) -> Option<(Seq<Cmd>, Map<Point, Seq<Clr>>, bool)> {
    if e.tp is Player {
        spec_player_step(g, player, dir, inp, fuel)
    } else {
        Some((seq![Cmd::MarkUpdatedHere], inp, false))
    }
}

/// The commands of an update first mark the entity as updated.
pub proof fn lemma_update_marks_first(e: Ent, g: GridView, player: Point, dir: Point, inp: Map<Point, Seq<Clr>>, fuel: nat)
    ensures
        spec_ent_update(e, g, player, dir, inp, fuel) matches Some((c, _, _)) ==> c.len() > 0 && c[0] is MarkUpdatedHere,
{
    let start = seq![Cmd::MarkUpdatedHere];
    let nx = player.add_spec(dir);
    let nx2 = nx.add_spec(dir);
    if e.tp is Player && spec_walkable_at(g, nx) {
        if g.ents.contains_key(nx) {
            if spec_walkable_at(g, nx2) && !g.ents.contains_key(nx2) && g.ents[nx].movable {
                let r1 = spec_tile_activate(g.tiles[nx2], g, ActSource::WalkOn, nx2, inp, fuel);
                if let Some((c1, i1)) = r1 {
                    let cmds = start + seq![Cmd::MoveTo(nx, nx2)] + c1;
                    assert(cmds[0] == Cmd::MarkUpdatedHere);
                    lemma_finish_first(g, cmds, nx, dir, i1, fuel);
                }
            }
        } else {
            lemma_finish_first(g, start, nx, dir, inp, fuel);
        }
    }
}

proof fn lemma_finish_first(g: GridView, cmds: Seq<Cmd>, nx: Point, dir: Point, inp: Map<Point, Seq<Clr>>, fuel: nat)
    requires
        cmds.len() > 0,
        cmds[0] is MarkUpdatedHere,
    ensures
        spec_finish_step(g, cmds, nx, dir, inp, fuel) matches Some((c, _, _)) ==> c.len() > 0 && c[0] is MarkUpdatedHere,
{
    let r = if g.tiles.contains_key(nx) {
        spec_tile_activate(g.tiles[nx], g, ActSource::PlWalkOn, nx, inp, fuel)
    } else {
        Some((seq![], inp))
    };
    if let Some((c, i)) = r {
        assert((cmds + c + seq![Cmd::DisplaceHere(dir)])[0] == cmds[0]);
    }
}

impl Ent {
    /// The commands for updating this entity, with the player at `player` trying to move by
    /// `dir`, and whether the player moved.
    pub fn update(&self, map: &Grid, player: Point, dir: Point, inpts: &mut Inputs, fuel: u64) -> (r: Option<(Vec<Cmd>, bool)>)
        requires
            player.in_range(),
            is_step(dir),
        ensures
            match r {
                Some((c, moved)) => spec_ent_update(*self, map@, player, dir, old(inpts)@, fuel as nat) == Some((c@, final(inpts)@, moved)),
                None => spec_ent_update(*self, map@, player, dir, old(inpts)@, fuel as nat) is None,
            },
            r matches Some((_, true)) ==> player.add_spec(dir).in_range(),
    {
        let mut cmds = Vec::new();
        cmds.push(Cmd::MarkUpdatedHere);
        assert(cmds@ =~= seq![Cmd::MarkUpdatedHere]);
        if !self.is_player() {
            return Some((cmds, false));
        }
        let nx = player.add(dir);
        let t = match map.get_map(nx) {
            None => {
                return Some((cmds, false));
            },
            Some(t) => t,
        };
        if t.cur_state().blocking {
            return Some((cmds, false));
        }
        if let Some(e) = map.get_ent(nx) {
            let nx2 = nx.add(dir);
            let free = match map.get_map(nx2) {
                Some(t2) => !t2.cur_state().blocking && map.get_ent(nx2).is_none() && e.movable,
                None => false,
            };
            if !free {
                return Some((cmds, false));
            }
            cmds.push(Cmd::MoveTo(nx, nx2));
            let t2 = map.get_map(nx2).unwrap();
            match t2.activate(map, ActSource::WalkOn, nx2, inpts, fuel) {
                None => {
                    return None;
                },
                Some(c1) => {
                    cmds = join_cmds(cmds, c1);
                },
            }
        }
        match t.activate(map, ActSource::PlWalkOn, nx, inpts, fuel) {
            None => None,
            Some(c2) => {
                let mut cmds = join_cmds(cmds, c2);
                cmds.push(Cmd::DisplaceHere(dir));
                Some((cmds, true))
            },
        }
    }
}

/// The colours recorded at the ports of the object at `p` once a beam of colour `c` has
/// arrived at its port `port`: what was recorded there before, with `c` at that port.
pub open spec fn with_arrival(inp: Map<Point, Seq<Clr>>, p: Point, port: int, c: Clr) -> Seq<Clr> {
    (if inp.contains_key(p) { inp[p] } else { no_inputs() }).update(port, c)
}

/// A beam entering an entity that it does not activate goes on as that entity's outputs,
/// computed from the colours recorded at its ports with the beam's own colour at the port it
/// arrives at; the colours recorded there afterwards include it.
pub proof fn lemma_beam_outputs_see_arrival(b: Beam, g: GridView, cur: Point, inp: Map<Point, Seq<Clr>>, fuel: nat)
    requires
        is_unit_dir(b.dir),
        cur.in_range(),
        cur.add_spec(b.dir).in_range(),
        g.tiles.contains_key(cur.add_spec(b.dir)),
        !g.tiles[cur.add_spec(b.dir)].spec_cur_state().opaque,
        g.ents.contains_key(cur.add_spec(b.dir)),
        g.ents[cur.add_spec(b.dir)].tp != EntType::Goal(b.clr),
        inp.contains_key(cur.add_spec(b.dir)) ==> inp[cur.add_spec(b.dir)].len() == 8,
        fuel > 0,
    ensures
        ({
            let nxt = cur.add_spec(b.dir);
            let port = spec_port_num(b.dir);
            let ins = with_arrival(inp, nxt, port, b.clr);
            &&& ins.len() == 8
            &&& ins[port] == b.clr
            &&& spec_walk(b, g, cur, inp, fuel) == spec_outs(
                g.ents[nxt].spec_outputs(ins),
                g,
                nxt,
                0,
                inp.insert(nxt, ins),
                (fuel - 1) as nat,
            )
        }),
{
    let nxt = cur.add_spec(b.dir);
    let port = spec_port_num(b.dir);
    let ins = with_arrival(inp, nxt, port, b.clr);
    let inp1 = inp.insert(nxt, ins);
    let rest = spec_outs(g.ents[nxt].spec_outputs(ins), g, nxt, 0, inp1, (fuel - 1) as nat);
    assert(inp1[nxt] == ins);
    if let Some((c2, i2)) = rest {
        assert(Seq::<Cmd>::empty() + c2 =~= c2);
    }
}

/// An object whose expression at port `q` is the colour arriving at port `p` passes a beam
/// through: a beam of colour `c` (other than black) arriving at `p`, when nothing arrived at
/// `q` before, leaves through `q` with colour `c`.
pub proof fn lemma_beam_passes_through(b: Beam, g: GridView, cur: Point, inp: Map<Point, Seq<Clr>>, fuel: nat, q: int)
    requires
        is_unit_dir(b.dir),
        cur.in_range(),
        cur.add_spec(b.dir).in_range(),
        g.tiles.contains_key(cur.add_spec(b.dir)),
        !g.tiles[cur.add_spec(b.dir)].spec_cur_state().opaque,
        g.ents.contains_key(cur.add_spec(b.dir)),
        g.ents[cur.add_spec(b.dir)].tp matches EntType::Obj(grp)
            && grp.0@[q].out == crate::port::Expr::Port(spec_port_num(b.dir) as usize),
        0 <= q < 8,
        q != spec_port_num(b.dir),
        inp.contains_key(cur.add_spec(b.dir)) ==> inp[cur.add_spec(b.dir)].len() == 8
            && inp[cur.add_spec(b.dir)][q] == Clr::Black,
        fuel > 0,
    ensures
        exists|outs: Seq<Clr>|
            #![trigger spec_outs(outs, g, cur.add_spec(b.dir), 0, inp.insert(cur.add_spec(b.dir), with_arrival(inp, cur.add_spec(b.dir), spec_port_num(b.dir), b.clr)), (fuel - 1) as nat)]
            outs.len() == 8 && outs[q] == b.clr && spec_walk(b, g, cur, inp, fuel) == spec_outs(
                outs,
                g,
                cur.add_spec(b.dir),
                0,
                inp.insert(cur.add_spec(b.dir), with_arrival(inp, cur.add_spec(b.dir), spec_port_num(b.dir), b.clr)),
                (fuel - 1) as nat,
            ),
{
    let nxt = cur.add_spec(b.dir);
    let port = spec_port_num(b.dir);
    let ins = with_arrival(inp, nxt, port, b.clr);
    let e = g.ents[nxt];
    lemma_beam_outputs_see_arrival(b, g, cur, inp, fuel);
    let outs = e.spec_outputs(ins);
    crate::beam::lemma_bits_roundtrip(b.clr, 0);
    if let EntType::Obj(grp) = e.tp {
        assert(ins[q] == Clr::Black);
        assert(grp.spec_out(ins, q) == b.clr);
        assert(outs[q] == b.clr);
    }
    assert(spec_walk(b, g, cur, inp, fuel) == spec_outs(outs, g, nxt, 0, inp.insert(nxt, ins), (fuel - 1) as nat));
}

/// A player pushes only into room: when an update moves the player on to a cell that holds an
/// entity, the updated entity is the player, the entity ahead can be pushed, and the cell
/// beyond it can be walked on and holds no entity; the entity ahead is moved there.
pub proof fn lemma_push_needs_room(e: Ent, g: GridView, player: Point, dir: Point, inp: Map<Point, Seq<Clr>>, fuel: nat)
    requires
        g.ents.contains_key(player.add_spec(dir)),
        spec_ent_update(e, g, player, dir, inp, fuel) matches Some((_, _, moved)) && moved,
    ensures
        ({
            let nx = player.add_spec(dir);
            let nx2 = nx.add_spec(dir);
            &&& e.tp is Player
            &&& g.ents[nx].movable
            &&& spec_walkable_at(g, nx2)
            &&& !g.ents.contains_key(nx2)
            &&& (spec_ent_update(e, g, player, dir, inp, fuel) matches Some((c, _, _))
                && c.len() > 1 && c[1] == Cmd::MoveTo(nx, nx2))
        }),
{
    let nx = player.add_spec(dir);
    let nx2 = nx.add_spec(dir);
    let start = seq![Cmd::MarkUpdatedHere];
    let r1 = spec_tile_activate(g.tiles[nx2], g, ActSource::WalkOn, nx2, inp, fuel);
    if let Some((c1, i1)) = r1 {
        let cmds = start + seq![Cmd::MoveTo(nx, nx2)] + c1;
        assert(cmds[1] == Cmd::MoveTo(nx, nx2));
        let r = if g.tiles.contains_key(nx) {
            spec_tile_activate(g.tiles[nx], g, ActSource::PlWalkOn, nx, i1, fuel)
        } else {
            Some((seq![], i1))
        };
        if let Some((c, i)) = r {
            assert((cmds + c + seq![Cmd::DisplaceHere(dir)])[1] == cmds[1]);
        }
    }
}

/// A push into an occupied cell is blocked: when entities stand both on the cell ahead of the
/// player and on the one beyond it, the player's update only marks it as updated, and it does
/// not move.
pub proof fn lemma_push_blocked(e: Ent, g: GridView, player: Point, dir: Point, inp: Map<Point, Seq<Clr>>, fuel: nat)
    requires
        e.tp is Player,
        g.ents.contains_key(player.add_spec(dir)),
        g.ents.contains_key(player.add_spec(dir).add_spec(dir)),
    ensures
        spec_ent_update(e, g, player, dir, inp, fuel) == Some((seq![Cmd::MarkUpdatedHere], inp, false)),
{
}

/// Beams of black leave no object: when every output is black, sending them on issues nothing
/// and changes no recorded colour.
proof fn lemma_outs_black(outs: Seq<Clr>, g: GridView, pos: Point, o: int, inp: Map<Point, Seq<Clr>>, fuel: nat)
    requires
        outs.len() == 8,
        forall|k: int| 0 <= k < 8 ==> outs[k] == Clr::Black,
    ensures
        spec_outs(outs, g, pos, o, inp, fuel) == Some((Seq::<Cmd>::empty(), inp)),
    decreases 8 - o,
{
    if 0 <= o < 8 {
        lemma_outs_black(outs, g, pos, o + 1, inp, fuel);
    }
}

/// A beam entering a goal records its colour at the port it arrives at. When the goal has the
/// beam's colour and nothing had arrived at that port before, the goal is activated as by a
/// laser and that is all the beam does; otherwise the beam does nothing more.
pub proof fn lemma_beam_reaches_goal(b: Beam, g: GridView, cur: Point, inp: Map<Point, Seq<Clr>>, fuel: nat)
    requires
        is_unit_dir(b.dir),
        cur.in_range(),
        cur.add_spec(b.dir).in_range(),
        g.tiles.contains_key(cur.add_spec(b.dir)),
        !g.tiles[cur.add_spec(b.dir)].spec_cur_state().opaque,
        g.ents.contains_key(cur.add_spec(b.dir)),
        g.ents[cur.add_spec(b.dir)].tp is Goal,
        fuel > 0,
    ensures
        ({
            let nxt = cur.add_spec(b.dir);
            let port = spec_port_num(b.dir);
            let inp1 = inp.insert(nxt, with_arrival(inp, nxt, port, b.clr));
            let fresh = !(inp.contains_key(nxt) && inp[nxt][port] != Clr::Black);
            spec_walk(b, g, cur, inp, fuel) == if fresh && g.ents[nxt].tp == EntType::Goal(b.clr) {
                spec_ent_activate(g.ents[nxt], g, ActSource::Laser, nxt, inp1, fuel)
            } else {
                Some((Seq::<Cmd>::empty(), inp1))
            }
        }),
{
    let nxt = cur.add_spec(b.dir);
    let port = spec_port_num(b.dir);
    let inp1 = inp.insert(nxt, with_arrival(inp, nxt, port, b.clr));
    let e = g.ents[nxt];
    let fresh = !(inp.contains_key(nxt) && inp[nxt][port] != Clr::Black);
    let r1 = if fresh && e.tp == EntType::Goal(b.clr) {
        spec_ent_activate(e, g, ActSource::Laser, nxt, inp1, fuel)
    } else {
        Some((seq![], inp1))
    };
    if let Some((c1, inp2)) = r1 {
        let arriving = if inp2.contains_key(nxt) { inp2[nxt] } else { no_inputs() };
        let outs = e.spec_outputs(arriving);
        lemma_outs_black(outs, g, nxt, 0, inp2, (fuel - 1) as nat);
        assert(c1 + Seq::<Cmd>::empty() =~= c1);
    }
}
} // verus!
