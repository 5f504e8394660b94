//! Entities: the player, lasers, goals and objects that take laser inputs.

use vstd::prelude::*;
use crate::beam::{self, Beam, Clr, is_unit_dir, spec_port_num};
use crate::point::Point;
use crate::port::{Clrs, Expr, PortGrp};
use crate::style::{Color, StyleCh};
use crate::loader::puzzles::{map_clr, spec_map_clr};
use crate::text::{ascii_upper, push_char, spec_ascii_upper};
use crate::Tile;

pub mod activation;

use activation::{ActEffect, ActHandler, ActSource, Cond, clone_handlers, handlers_wf};

verus! {

/// Background colour of immovable objects.
pub open spec fn immovable_clr() -> Color {
    Color::DarkGrey
}

/// The arrow pointing out of port `i`.
pub open spec fn spec_diag_arrow(i: int) -> char {
    if i == 0 {
        '↖'
    } else if i == 1 {
        '↑'
    } else if i == 2 {
        '↗'
    } else if i == 3 {
        '→'
    } else if i == 4 {
        '↘'
    } else if i == 5 {
        '↓'
    } else if i == 6 {
        '↙'
    } else {
        '←'
    }
}

fn diag_arrow(i: usize) -> (c: char)
    requires
        i < 8,
    ensures
        c == spec_diag_arrow(i as int),
{
    if i == 0 {
        '↖'
    } else if i == 1 {
        '↑'
    } else if i == 2 {
        '↗'
    } else if i == 3 {
        '→'
    } else if i == 4 {
        '↘'
    } else if i == 5 {
        '↓'
    } else if i == 6 {
        '↙'
    } else {
        '←'
    }
}

/// The arrow drawn for a laser firing in the given direction.
pub open spec fn spec_arrow_of(dir: Point) -> char {
    spec_diag_arrow(spec_port_num(Point { x: -dir.x as i32, y: -dir.y as i32 }))
}

/// A move that the player did.
#[derive(Clone, Copy, Debug, PartialEq, Eq, Structural)]
pub struct Move(pub Point);

impl Move {
    /// Create a move.
    pub fn new(dir: Point) -> (m: Self)
        ensures
            m == Move(dir),
    {
        Move(dir)
    }
}

/// Encodes the behaviour of an entity.
#[derive(Debug)]
pub enum EntType {
    /// Is the player.
    Player,
    /// Fires a coloured laser beam.
    Laser,
    /// Uses its inputs to potentially create an output.
    Obj(PortGrp),
    /// Takes an input of the given colour to any port. This activates all surrounding
    /// tiles/entities.
    Goal(Clr),
    /// Something else that is driven by its activation handlers.
    Other,
}

impl Clone for EntType {
    fn clone(&self) -> (t: Self)
        ensures
            t == *self,
    {
        match self {
            EntType::Player => EntType::Player,
            EntType::Laser => EntType::Laser,
            EntType::Obj(g) => EntType::Obj(g.clone()),
            EntType::Goal(c) => EntType::Goal(*c),
            EntType::Other => EntType::Other,
        }
    }
}

/// A movable object in a game.
#[derive(Debug)]
pub struct Ent {
    /// The character used to represent this entity.
    pub ch: StyleCh,
    /// Way in which this entity behaves.
    pub tp: EntType,
    /// Whether or not this entity has been updated yet.
    pub updated: bool,
    /// True if this entity can be pushed.
    pub movable: bool,
    /// True if this entity is being activated this frame.
    pub active: bool,
    /// True if the entity was being activated during the previous frame.
    pub prev_active: bool,
    /// Activation handlers of this entity.
    pub handlers: Vec<ActHandler>,
}

impl Ent {
    /// The two entities agree in every field, handlers included.
    pub open spec fn same_as(self, other: Ent) -> bool {
        &&& self.ch == other.ch
        &&& self.tp == other.tp
        &&& self.updated == other.updated
        &&& self.movable == other.movable
        &&& self.active == other.active
        &&& self.prev_active == other.prev_active
        &&& self.handlers@ == other.handlers@
    }

    /// The handlers' effects are well formed and an object's port expressions are too.
    pub open spec fn wf(self) -> bool {
        &&& handlers_wf(self.handlers@)
        &&& (self.tp matches EntType::Obj(g) ==> g.wf())
    }

    /// The entity is a new player: drawn as a white `@`, with no handlers.
    pub open spec fn is_player_ent(self) -> bool {
        &&& self.fresh(StyleCh { content: '@', fg: Some(Color::White), bg: None }, EntType::Player)
        &&& self.handlers@.len() == 0
    }

    /// The entity is a new laser firing in direction `dir` in colour `clr` at the start of
    /// every frame, drawn as the arrow of its direction.
    pub open spec fn is_laser(self, dir: Point, clr: Clr) -> bool {
        &&& self.fresh(StyleCh { content: spec_arrow_of(dir), fg: Some(clr.spec_to_color()), bg: None }, EntType::Laser)
        &&& self.handlers@ == seq![ActHandler { src: ActSource::LaserTime, ef: ActEffect::Laser(Beam { clr, dir }) }]
    }

    /// The entity is a new goal of colour `clr`, drawn as an `O`: hit by a laser while not
    /// active it activates its surroundings and becomes active; it resets at the end of a
    /// frame.
    pub open spec fn is_goal(self, clr: Clr) -> bool {
        &&& self.fresh(StyleCh { content: 'O', fg: Some(clr.spec_to_color()), bg: None }, EntType::Goal(clr))
        &&& self.handlers@ == seq![
            ActHandler {
                src: ActSource::Laser,
                ef: ActEffect::Chain(
                    Box::new(ActEffect::CondEf(Cond::Not(Box::new(Cond::EActive)), Box::new(ActEffect::Prop))),
                    Box::new(ActEffect::MkActive),
                ),
            },
            ActHandler { src: ActSource::FrameEnd, ef: ActEffect::Reset },
        ]
    }

    /// A fresh entity: not updated, movable, inactive, with the given fields.
    pub open spec fn fresh(self, ch: StyleCh, tp: EntType) -> bool {
        &&& self.ch == ch
        &&& self.tp == tp
        &&& !self.updated
        &&& self.movable
        &&& !self.active
        &&& !self.prev_active
    }
}

impl Clone for Ent {
    fn clone(&self) -> (e: Self)
        ensures
            e.same_as(*self),
    {
        Ent {
            ch: self.ch,
            tp: self.tp.clone(),
            updated: self.updated,
            movable: self.movable,
            active: self.active,
            prev_active: self.prev_active,
            handlers: clone_handlers(&self.handlers),
        }
    }
}

impl Default for Ent {
    fn default() -> (e: Self)
        ensures
            e.fresh(StyleCh { content: '@', fg: Some(Color::White), bg: None }, EntType::Player),
            e.handlers@.len() == 0,
    {
        Self {
            ch: StyleCh::with('@', Color::White),
            tp: EntType::Player,
            updated: false,
            movable: true,
            active: false,
            prev_active: false,
            handlers: Vec::new(),
        }
    }
}

impl Ent {
    /// Create an entity that is the player.
    pub fn player() -> (e: Self)
        ensures
            e.is_player_ent(),
            e.wf(),
    {
        Self::default()
    }

    /// Create an entity that fires a laser at the start of every frame.
    pub fn laser(dir: Point, clr: Clr) -> (e: Self)
        requires
            is_unit_dir(dir),
        ensures
            e.is_laser(dir, clr),
            e.wf(),
    {
        let bm = Beam::new(clr, dir);
        let mut hs = Vec::new();
        hs.push(ActHandler::new(ActSource::LaserTime, ActEffect::Laser(bm)));
        Self {
            ch: StyleCh::with(diag_arrow(beam::port_num(dir.neg())), clr.to_color()),
            tp: EntType::Laser,
            handlers: hs,
            updated: false,
            movable: true,
            active: false,
            prev_active: false,
        }
    }

    /// Create an entity that requires activation to fire a laser: activated by an object, it
    /// fires at once and again at the start of the next frame.
    pub fn inact_laser(dir: Point, clr: Clr) -> (e: Self)
        requires
            is_unit_dir(dir),
        ensures
            e.fresh(StyleCh { content: spec_arrow_of(dir), fg: Some(clr.spec_darker()), bg: None }, EntType::Other),
            ({
                let laser = ActEffect::Laser(Beam { clr, dir });
                e.handlers@ == seq![
                    ActHandler { src: ActSource::FrameEnd, ef: ActEffect::Reset },
                    ActHandler { src: ActSource::FrameStart, ef: ActEffect::CondEf(Cond::EPrevActive, Box::new(laser)) },
                    ActHandler {
                        src: ActSource::Obj,
                        ef: ActEffect::CondEf(
                            Cond::Not(Box::new(Cond::EActive)),
                            Box::new(ActEffect::Chain(Box::new(laser), Box::new(ActEffect::MkActive))),
                        ),
                    },
                ]
            }),
            e.wf(),
    {
        let laser = ActEffect::Laser(Beam::new(clr, dir));
        let mut hs = Vec::new();
        hs.push(ActHandler::new(ActSource::FrameEnd, ActEffect::Reset));
        hs.push(ActHandler::new(ActSource::FrameStart, Cond::EPrevActive.cond_ef(laser.clone())));
        hs.push(ActHandler::new(ActSource::Obj, Cond::EActive.not().cond_ef(laser.clone().chain(ActEffect::MkActive))));
        assert(handlers_wf(hs@)) by {
            reveal_with_fuel(ActEffect::wf, 4);
            assert(hs@[0].ef.wf());
            assert(hs@[1].ef.wf());
            assert(hs@[2].ef.wf());
        }
        Self {
            ch: StyleCh::with(diag_arrow(beam::port_num(dir.neg())), clr.darker()),
            tp: EntType::Other,
            handlers: hs,
            updated: false,
            movable: true,
            active: false,
            prev_active: false,
        }
    }

    /// Create a goal entity: hit by a laser of its colour, it activates its surroundings.
    pub fn goal(clr: Clr) -> (e: Self)
        ensures
            e.is_goal(clr),
            e.wf(),
    {
        let mut hs = Vec::new();
        hs.push(ActHandler::new(ActSource::Laser, Cond::EActive.not().cond_ef(ActEffect::Prop).chain(ActEffect::MkActive)));
        hs.push(ActHandler::new(ActSource::FrameEnd, ActEffect::Reset));
        assert(handlers_wf(hs@)) by {
            reveal_with_fuel(ActEffect::wf, 4);
            assert(hs@[0].ef.wf());
            assert(hs@[1].ef.wf());
        }
        assert(hs@ =~= seq![
            ActHandler {
                src: ActSource::Laser,
                ef: ActEffect::Chain(
                    Box::new(ActEffect::CondEf(Cond::Not(Box::new(Cond::EActive)), Box::new(ActEffect::Prop))),
                    Box::new(ActEffect::MkActive),
                ),
            },
            ActHandler { src: ActSource::FrameEnd, ef: ActEffect::Reset },
        ]);
        Self {
            ch: StyleCh::with('O', clr.to_color()),
            tp: EntType::Goal(clr),
            handlers: hs,
            updated: false,
            movable: true,
            active: false,
            prev_active: false,
        }
    }

    /// Create an object that takes laser inputs; its ports compute their outputs with the first
    /// eight of the given expressions.
    pub fn obj(ch: StyleCh, exprs: Vec<Expr>) -> (e: Self)
        requires
            exprs@.len() >= 8,
        ensures
            e.ch == ch,
            e.tp matches EntType::Obj(g) && forall|i: int| 0 <= i < 8 ==> #[trigger] g.0@[i].out == exprs@[i],
            !e.updated,
            e.movable,
            !e.active,
            !e.prev_active,
            e.handlers@.len() == 0,
    {
        Self {
            ch,
            tp: EntType::Obj(PortGrp::from_exprs(exprs)),
            updated: false,
            movable: true,
            active: false,
            prev_active: false,
            handlers: Vec::new(),
        }
    }

    /// True if this entity is the player entity.
    pub fn is_player(&self) -> (r: bool)
        ensures
            r == (self.tp is Player),
    {
        match self.tp {
            EntType::Player => true,
            _ => false,
        }
    }

    /// True if the player can walk on the given optional tile (false if it is None).
    pub fn walkable(tl: Option<&Tile>) -> (r: bool)
        ensures
            r == match tl {
                Some(t) => !t.spec_cur_state().blocking,
                None => false,
            },
    {
        match tl {
            Some(t) => !t.cur_state().blocking,
            None => false,
        }
    }

    /// Rotate this entity 90 degrees clockwise: only objects change, their ports turning with
    /// them.
    pub fn rotate_90(&mut self)
        ensures
            final(self).ch == old(self).ch,
            final(self).updated == old(self).updated,
            final(self).movable == old(self).movable,
            final(self).active == old(self).active,
            final(self).prev_active == old(self).prev_active,
            final(self).handlers@ == old(self).handlers@,
            match old(self).tp {
                EntType::Obj(g) => final(self).tp == EntType::Obj(g.spec_rotated()),
                _ => final(self).tp == old(self).tp,
            },
    {
        match &mut self.tp {
            EntType::Obj(pgrp) => pgrp.rotate_90(),
            _ => (),
        }
    }

    /// The colours this entity outputs, given the colours arriving at its ports: an object's
    /// ports decide; nothing else outputs anything.
    pub open spec fn spec_outputs(self, inpts: Seq<Clr>) -> Seq<Clr> {
        match self.tp {
            EntType::Obj(g) => Seq::new(8, |i: int| g.spec_out(inpts, i)),
            _ => Seq::new(8, |i: int| Clr::Black),
        }
    }

    /// Get all beams that would be output by this entity.
    pub fn outputs(&self, inpts: &Clrs) -> (outs: Clrs)
        requires
            self.wf(),
        ensures
            outs@ == self.spec_outputs(inpts@),
    {
        match &self.tp {
            EntType::Obj(ports) => {
                let outs = ports.determine(inpts);
                assert(outs@ =~= self.spec_outputs(inpts@));
                outs
            },
            _ => {
                let outs = [Clr::Black, Clr::Black, Clr::Black, Clr::Black, Clr::Black, Clr::Black, Clr::Black, Clr::Black];
                assert(outs@ =~= self.spec_outputs(inpts@));
                outs
            },
        }
    }

    /// The two characters standing for this entity in a puzzle file: its colour letter, upper
    /// case when it cannot be pushed, then its character.
    pub open spec fn spec_file_repr(self) -> Seq<char> {
        let l = spec_map_clr(self.ch.fg->0)->0;
        seq![if self.movable { l } else { spec_ascii_upper(l) }, self.ch.content]
    }

    /// Its colour can be written in a puzzle file.
    pub open spec fn has_file_colour(self) -> bool {
        self.ch.fg matches Some(c) && spec_map_clr(c) is Some
    }

    /// Get the way this should be represented in a file.
    pub fn file_repr(&self) -> (s: String)
        requires
            self.has_file_colour(),
        ensures
            s@ == self.spec_file_repr(),
    {
        let mut string = String::new();
        let fg = self.ch.fg.unwrap();
        let mut ch1 = match map_clr(fg) {
            Ok(c) => c,
            Err(_) => ' ',
        };
        if !self.movable {
            ch1 = ascii_upper(ch1);
        }
        push_char(&mut string, ch1);
        push_char(&mut string, self.ch.content);
        assert(string@ =~= self.spec_file_repr());
        string
    }

    /// How the entity is drawn: on a dark grey background when it cannot be pushed.
    pub fn repr(&self) -> (s: StyleCh)
        ensures
            s == (if self.movable { self.ch } else { StyleCh { bg: Some(immovable_clr()), ..self.ch } }),
    {
        if self.movable {
            self.ch
        } else {
            self.ch.on(Color::DarkGrey)
        }
    }

    /// The order in which entities are updated: a player not yet updated goes first.
    pub fn priority(&self) -> (p: u32)
        ensures
            p == (if !self.updated && self.tp is Player { 10u32 } else { 0u32 }),
    {
        if self.updated {
            0
        } else {
            match self.tp {
                EntType::Player => 10,
                EntType::Obj(_) => 0,
                EntType::Laser => 0,
                EntType::Goal(_) => 0,
                EntType::Other => 0,
            }
        }
    }
}

} // verus!
