//! A grid based puzzle game about reflecting and mixing laser beams.

pub mod point;
pub mod assoc;

pub mod style;
pub mod beam;
pub mod port;
pub mod text;
pub mod digest;
pub mod entity;
pub mod grid;
pub mod frame;
pub mod loader;
pub mod editor;
pub mod screen;

use vstd::prelude::*;
use style::{Color, StyleCh};
use loader::puzzles::{map_clr, spec_map_clr, start_puzzle, fresh, Puzzle};
use beam::{Clr, Inputs};
use point::Point;
use grid::{Cmd, Grid, GridView, lemma_apply_all_size, spec_apply_all, spec_apply, spec_move, spec_wins, spec_update_vfx};
use entity::activation::{spec_ent_update, is_step, lemma_update_marks_first};
use frame::{run_pass, spec_after_pass, size_ok};
use entity::{Ent, EntType, Move};
use text::push_char;
use entity::activation::{ActHandler, ActSource, ActEffect, Cond, handlers_wf, clone_handlers};

verus! {

/// A state of a tile.
#[derive(Clone, Copy, Debug, PartialEq, Eq, Structural)]
pub struct TileState {
    /// Representation of this state.
    pub ch: StyleCh,
    /// Whether the tile in this state prevents movement through it.
    pub blocking: bool,
    /// Whether the tile in this state prevents lasers passing through it.
    pub opaque: bool,
    /// Whether it is a bad idea for the player to walk on to this tile.
    pub scary: bool,
}

/// A single tile that may or may not block movement.
#[derive(Debug)]
pub struct Tile {
    /// State when the tile is not being activated.
    pub inact: TileState,
    /// State when the tile is being activated.
    pub act: Option<TileState>,
    /// Whether the tile is being activated.
    pub active: bool,
    /// Activation handlers of this tile.
    pub handlers: Vec<ActHandler>,
}

impl Tile {
    /// The two tiles have the same states, activity and handlers.
    pub open spec fn same_as(self, other: Tile) -> bool {
        &&& self.inact == other.inact
        &&& self.act == other.act
        &&& self.active == other.active
        &&& self.handlers@ == other.handlers@
    }
}

impl Clone for Tile {
    fn clone(&self) -> (t: Self)
        ensures
            t.same_as(*self),
    {
        Tile { inact: self.inact, act: self.act, active: self.active, handlers: clone_handlers(&self.handlers) }
    }
}


/// Width of the terminal the game is drawn in.
pub const TERMINAL_WID: u16 = 121;
/// Height of the terminal the game is drawn in.
pub const TERMINAL_HGT: u16 = 30;
/// Width of the window the puzzle is drawn in.
pub const GAME_WID: u16 = 20;
/// Height of the window the puzzle is drawn in.
pub const GAME_HGT: u16 = 20;

const BUTTON_CH: char = '◻';
const OPEN_DOOR: char = '⸬';
const CLOSED_DOOR: char = '█';
const LEVER_ON: char = 'Δ';
const LEVER_OFF: char = '𝈔';
const EXIT_CH: char = '!';

/// The character of buttons.
pub open spec fn button_ch() -> char {
    '◻'
}

/// The character of open doors.
pub open spec fn open_door_ch() -> char {
    '⸬'
}

/// The character of closed doors.
pub open spec fn closed_door_ch() -> char {
    '█'
}

/// The character of levers that are on.
pub open spec fn lever_on_ch() -> char {
    'Δ'
}

/// The character of levers that are off.
pub open spec fn lever_off_ch() -> char {
    '𝈔'
}

/// A tile state drawn with a coloured character, neither blocking nor opaque nor scary.
pub open spec fn plain_state(content: char, clr: Color) -> TileState {
    TileState { ch: StyleCh { content, fg: Some(clr), bg: None }, blocking: false, opaque: false, scary: false }
}

impl TileState {
    /// Create a new tile state.
    pub fn new(ch: StyleCh, blocking: bool, opaque: bool) -> (s: Self)
        ensures
            s == (TileState { ch, blocking, opaque, scary: false }),
    {
        Self { ch, blocking, opaque, scary: false }
    }

    /// Make the tile state scary.
    pub fn scary(self) -> (s: Self)
        ensures
            s == (TileState { scary: true, ..self }),
    {
        Self { scary: true, ..self }
    }

    /// Return a standard wall tile.
    fn wall() -> (s: Self)
        ensures
            s == (TileState { ch: StyleCh { content: '#', fg: Some(Color::White), bg: None }, blocking: true, opaque: true, scary: false }),
    {
        Self { ch: StyleCh::with('#', Color::White), blocking: true, opaque: true, scary: false }
    }

    /// Return a standard floor tile.
    fn floor() -> (s: Self)
        ensures
            s == plain_state('.', Color::White),
    {
        Self { ch: StyleCh::with('.', Color::White), blocking: false, opaque: false, scary: false }
    }
}

impl Default for TileState {
    fn default() -> (s: Self)
        ensures
            s == plain_state(' ', Color::White),
    {
        Self { blocking: false, ch: StyleCh::with(' ', Color::White), opaque: false, scary: false }
    }
}

impl Tile {
    /// A tile with a single state and no handlers.
    pub open spec fn single(self, st: TileState) -> bool {
        &&& self.inact == st
        &&& self.act is None
        &&& !self.active
        &&& self.handlers@.len() == 0
    }

    /// Construct a single state tile with the given fields.
    pub fn new(ch: StyleCh, blocking: bool, opaque: bool) -> (t: Self)
        ensures
            t.single(TileState { ch, blocking, opaque, scary: false }),
    {
        Self::from_state(TileState::new(ch, blocking, opaque))
    }

    /// A single state tile in the given state.
    pub fn from_state(value: TileState) -> (t: Self)
        ensures
            t.single(value),
    {
        Self { inact: value, act: None, active: false, handlers: Vec::new() }
    }

    /// Set the active state of this tile to the provided one.
    pub fn join(self, active: TileState) -> (t: Self)
        ensures
            t.inact == self.inact,
            t.act == Some(active),
            t.active == self.active,
            t.handlers@ == self.handlers@,
    {
        Self { act: Some(active), ..self }
    }

    /// Add the given activation handlers to the tile.
    pub fn with_handlers(self, handlers: Vec<ActHandler>) -> (t: Self)
        ensures
            t.inact == self.inact,
            t.act == self.act,
            t.active == self.active,
            t.handlers@ == handlers@,
    {
        Self { handlers, ..self }
    }

    /// If this is a dual state tile, return a new tile with the inactive and active states
    /// reversed.
    pub fn flipped(&self) -> (r: Option<Self>)
        ensures
            match self.act {
                Some(a) => r matches Some(t) && t.inact == a && t.act == Some(self.inact) && !t.active
                    && t.handlers@ == self.handlers@,
                None => r is None,
            },
    {
        match self.act {
            Some(a) => Some(Self {
                inact: a,
                act: Some(self.inact),
                active: false,
                handlers: clone_handlers(&self.handlers),
            }),
            None => None,
        }
    }

    /// The state the tile is in: the active state while it is active and has one, otherwise the
    /// inactive state.
    pub open spec fn spec_cur_state(self) -> TileState {
        if self.active && self.act is Some {
            self.act->0
        } else {
            self.inact
        }
    }

    /// Get a reference to the current state.
    pub fn cur_state(&self) -> (s: &TileState)
        ensures
            *s == self.spec_cur_state(),
    {
        if self.active {
            match &self.act {
                Some(st) => st,
                None => &self.inact,
            }
        } else {
            &self.inact
        }
    }

    /// The handlers' effects are well formed.
    pub open spec fn wf(self) -> bool {
        handlers_wf(self.handlers@)
    }

    /// Create a standard floor.
    pub fn floor() -> (t: Self)
        ensures
            t.single(plain_state('.', Color::White)),
    {
        Self::from_state(TileState::floor())
    }

    /// Create a standard wall.
    pub fn wall() -> (t: Self)
        ensures
            t.single(TileState { ch: StyleCh { content: '#', fg: Some(Color::White), bg: None }, blocking: true, opaque: true, scary: false }),
    {
        Self::from_state(TileState::wall())
    }

    /// Create a water tile. Water is very scary (the player should not walk on it); something
    /// walking on to it activates its `Murder` effect, which changes nothing.
    pub fn water() -> (t: Self)
        ensures
            t.inact == (TileState { scary: true, ..plain_state('~', Color::Blue) }),
            t.act is None,
            !t.active,
            t.handlers@ == seq![ActHandler { src: ActSource::WalkOn, ef: ActEffect::Murder }],
            t.wf(),
    {
        let t = Self::from_state(TileState::new(StyleCh::with('~', Color::Blue), false, false).scary());
        let mut hs = Vec::new();
        hs.push(ActHandler::new(ActSource::WalkOn, ActEffect::Murder));
        t.with_handlers(hs)
    }

    /// Create a standard weighted button (can only be pressed by objects, not the player).
    pub fn wgtd_button() -> (t: Self)
        ensures
            t.inact == plain_state(button_ch(), Color::DarkYellow),
            t.act == Some(plain_state(button_ch(), Color::White)),
            !t.active,
            t.handlers@ == seq![
                ActHandler { src: ActSource::WalkOn, ef: ActEffect::Prop },
                ActHandler { src: ActSource::StayOn, ef: ActEffect::Prop },
            ],
            t.wf(),
    {
        let mut hs = Vec::new();
        hs.push(ActHandler::new(ActSource::WalkOn, ActEffect::Prop));
        hs.push(ActHandler::new(ActSource::StayOn, ActEffect::Prop));
        Self::new(StyleCh::with(BUTTON_CH, Color::DarkYellow), false, false)
            .join(TileState::new(StyleCh::with(BUTTON_CH, Color::White), false, false))
            .with_handlers(hs)
    }

    /// Create a standard button.
    pub fn button() -> (t: Self)
        ensures
            t.inact == plain_state(button_ch(), Color::White),
            t.act == Some(plain_state(button_ch(), Color::White)),
            !t.active,
            t.handlers@ == seq![
                ActHandler { src: ActSource::WalkOn, ef: ActEffect::Prop },
                ActHandler { src: ActSource::PlWalkOn, ef: ActEffect::Prop },
                ActHandler { src: ActSource::StayOn, ef: ActEffect::Prop },
            ],
            t.wf(),
    {
        let mut hs = Vec::new();
        hs.push(ActHandler::new(ActSource::WalkOn, ActEffect::Prop));
        hs.push(ActHandler::new(ActSource::PlWalkOn, ActEffect::Prop));
        hs.push(ActHandler::new(ActSource::StayOn, ActEffect::Prop));
        Tile::new(StyleCh::with(BUTTON_CH, Color::White), false, false)
            .join(TileState::new(StyleCh::with(BUTTON_CH, Color::White), false, false))
            .with_handlers(hs)
    }

    /// Create a standard door. An open door is passable and lets lasers through; activating
    /// a door switches it to its other state until the end of the frame.
    pub fn door(open: bool) -> (t: Self)
        ensures
            ({
                let op = plain_state(open_door_ch(), Color::White);
                let cls = TileState { blocking: true, opaque: true, ..plain_state(closed_door_ch(), Color::White) };
                &&& t.inact == (if open { op } else { cls })
                &&& t.act == Some(if open { cls } else { op })
            }),
            !t.active,
            t.handlers@ == seq![
                ActHandler { src: ActSource::Obj, ef: ActEffect::MkActive },
                ActHandler { src: ActSource::FrameEnd, ef: ActEffect::Reset },
            ],
            t.wf(),
    {
        let op = TileState::new(StyleCh::with(OPEN_DOOR, Color::White), false, false);
        let cls = TileState::new(StyleCh::with(CLOSED_DOOR, Color::White), true, true);
        let dr = if open {
            Tile::from_state(op).join(cls)
        } else {
            Tile::from_state(cls).join(op)
        };
        let mut hs = Vec::new();
        hs.push(ActHandler::new(ActSource::Obj, ActEffect::MkActive));
        hs.push(ActHandler::new(ActSource::FrameEnd, ActEffect::Reset));
        dr.with_handlers(hs)
    }

    /// Create a standard one way door: an open red door that closes once the player walks on
    /// to it.
    pub fn single_door() -> (t: Self)
        ensures
            t.inact == plain_state(open_door_ch(), Color::Red),
            t.act == Some(TileState { blocking: true, opaque: true, ..plain_state(closed_door_ch(), Color::Red) }),
            !t.active,
            t.handlers@ == seq![ActHandler { src: ActSource::PlWalkOn, ef: ActEffect::MkActive }],
            t.wf(),
    {
        let mut hs = Vec::new();
        hs.push(ActHandler::new(ActSource::PlWalkOn, ActEffect::MkActive));
        let mut dr = Self::door(true).with_handlers(hs);
        dr.inact.ch = StyleCh::with(OPEN_DOOR, Color::Red);
        let st = TileState::new(StyleCh::with(CLOSED_DOOR, Color::Red), true, true);
        dr.act = Some(st);
        dr
    }

    /// Create a standard lever. Walking on to a lever switches it; while it is switched from
    /// its initial position it activates its surroundings.
    pub fn lever(is_on: bool) -> (t: Self)
        ensures
            ({
                let on = plain_state(lever_on_ch(), Color::White);
                let off = plain_state(lever_off_ch(), Color::White);
                let cond = if is_on { Cond::Not(Box::new(Cond::TActive)) } else { Cond::TActive };
                &&& t.inact == (if is_on { on } else { off })
                &&& t.act == Some(if is_on { off } else { on })
                &&& t.handlers@ == seq![
                    ActHandler { src: ActSource::WalkOn, ef: ActEffect::Inv },
                    ActHandler { src: ActSource::PlWalkOn, ef: ActEffect::Inv },
                    ActHandler { src: ActSource::WalkOn, ef: ActEffect::CondEf(cond, Box::new(ActEffect::Prop)) },
                    ActHandler { src: ActSource::PlWalkOn, ef: ActEffect::CondEf(cond, Box::new(ActEffect::Prop)) },
                    ActHandler { src: ActSource::FrameStart, ef: ActEffect::CondEf(cond, Box::new(ActEffect::Prop)) },
                ]
            }),
            !t.active,
            t.wf(),
    {
        let on = TileState::new(StyleCh::with(LEVER_ON, Color::White), false, false);
        let off = TileState::new(StyleCh::with(LEVER_OFF, Color::White), false, false);
        let lever = if is_on {
            Tile::from_state(on).join(off)
        } else {
            Tile::from_state(off).join(on)
        };
        let mut cond = Cond::TActive;
        if is_on {
            cond = cond.not();
        }
        let mut hs = Vec::new();
        hs.push(ActHandler::new(ActSource::WalkOn, ActEffect::Inv));
        hs.push(ActHandler::new(ActSource::PlWalkOn, ActEffect::Inv));
        hs.push(ActHandler::new(ActSource::WalkOn, cond.clone().cond_ef(ActEffect::Prop)));
        hs.push(ActHandler::new(ActSource::PlWalkOn, cond.clone().cond_ef(ActEffect::Prop)));
        hs.push(ActHandler::new(ActSource::FrameStart, cond.cond_ef(ActEffect::Prop)));
        assert(ActEffect::Prop.wf());
        assert(handlers_wf(hs@)) by {
            assert(hs@[2].ef.wf());
            assert(hs@[3].ef.wf());
            assert(hs@[4].ef.wf());
        }
        lever.with_handlers(hs)
    }

    /// Create a standard exit: walking on to it wins the puzzle.
    pub fn exit() -> (t: Self)
        ensures
            t.inact == plain_state('!', Color::Green),
            t.act is None,
            !t.active,
            t.handlers@ == seq![ActHandler { src: ActSource::PlWalkOn, ef: ActEffect::Win }],
            t.wf(),
    {
        let mut hs = Vec::new();
        hs.push(ActHandler::new(ActSource::PlWalkOn, ActEffect::Win));
        Tile::new(StyleCh::with(EXIT_CH, Color::Green), false, false).with_handlers(hs)
    }
}

impl Default for Tile {
    fn default() -> (t: Self)
        ensures
            t.single(plain_state(' ', Color::White)),
    {
        Self::from_state(TileState::default())
    }
}


impl Tile {
    /// Its current colour can be written in a puzzle file.
    pub open spec fn has_file_colour(self) -> bool {
        self.spec_cur_state().ch.fg matches Some(c) && spec_map_clr(c) is Some
    }

    /// The two characters standing for this tile in a puzzle file: the colour letter and the
    /// character of its current state.
    pub open spec fn spec_file_repr(self) -> Seq<char> {
        let ch = self.spec_cur_state().ch;
        seq![spec_map_clr(ch.fg->0)->0, ch.content]
    }

    /// Return the representation of this tile as it would be in a file.
    pub fn file_repr(&self) -> (s: String)
        requires
            self.has_file_colour(),
        ensures
            s@ == self.spec_file_repr(),
    {
        let mut string = String::new();
        let ch = self.cur_state().ch;
        let ch1 = match map_clr(ch.fg.unwrap()) {
            Ok(c) => c,
            Err(_) => ' ',
        };
        push_char(&mut string, ch1);
        push_char(&mut string, ch.content);
        assert(string@ =~= self.spec_file_repr());
        string
    }

    /// How the tile is drawn: the character of its current state.
    pub fn repr(&self) -> (s: StyleCh)
        ensures
            s == self.spec_cur_state().ch,
    {
        self.cur_state().ch
    }
}

/// A singular frame of animation in a visual effect.
#[derive(Clone, Copy, Debug, PartialEq, Eq, Structural)]
pub enum Frame {
    /// Change nothing.
    Transparent,
    /// Replace with the given styled character.
    Opaque(StyleCh),
    /// Set the colour that the character is on.
    ReplaceFloor(Color),
}

impl Frame {
    /// What this frame turns a character into.
    pub open spec fn spec_map(self, txt: StyleCh) -> StyleCh {
        match self {
            Frame::Transparent => txt,
            Frame::Opaque(ch) => ch,
            Frame::ReplaceFloor(clr) => StyleCh { bg: Some(clr), ..txt },
        }
    }

    /// Turn the text shown at this position into something new.
    pub fn map(&self, txt: &StyleCh) -> (s: StyleCh)
        ensures
            s == self.spec_map(*txt),
    {
        match self {
            Frame::Transparent => *txt,
            Frame::Opaque(ch) => *ch,
            Frame::ReplaceFloor(clr) => txt.on(*clr),
        }
    }
}

/// A visual effect in the grid.
#[derive(Debug)]
pub struct Vfx {
    pub frames: Vec<Frame>,
    pub cur_idx: usize,
}

impl Clone for Vfx {
    fn clone(&self) -> (v: Self)
        ensures
            v.frames@ == self.frames@,
            v.cur_idx == self.cur_idx,
    {
        let mut frames: Vec<Frame> = Vec::new();
        let mut i: usize = 0;
        while i < self.frames.len()
            invariant
                i <= self.frames@.len(),
                frames@ == self.frames@.subrange(0, i as int),
            decreases self.frames@.len() - i,
        {
            frames.push(self.frames[i]);
            i = i + 1;
            assert(frames@ =~= self.frames@.subrange(0, i as int));
        }
        assert(self.frames@.subrange(0, self.frames@.len() as int) =~= self.frames@);
        Vfx { frames, cur_idx: self.cur_idx }
    }
}

impl Vfx {
    /// Create a new instance with the given frames.
    pub fn new(frames: Vec<Frame>) -> (v: Self)
        ensures
            v.frames@ == frames@,
            v.cur_idx == 0,
    {
        Self { frames, cur_idx: 0 }
    }

    /// Create a new instance with `frames` copies of the given character as opaque frames.
    pub fn new_opaque(ch: StyleCh, frames: usize) -> (v: Self)
        ensures
            v.frames@ == Seq::new(frames as nat, |i: int| Frame::Opaque(ch)),
            v.cur_idx == 0,
    {
        let mut fs: Vec<Frame> = Vec::new();
        let mut i: usize = 0;
        while i < frames
            invariant
                i <= frames,
                fs@ == Seq::new(i as nat, |k: int| Frame::Opaque(ch)),
            decreases frames - i,
        {
            fs.push(Frame::Opaque(ch));
            i = i + 1;
            assert(fs@ =~= Seq::new(i as nat, |k: int| Frame::Opaque(ch)));
        }
        Self { frames: fs, cur_idx: 0 }
    }

    /// Create a new instance with 1 copy of the given character as opaque frames.
    pub fn new_opaque_single(ch: StyleCh) -> (v: Self)
        ensures
            v.frames@ == seq![Frame::Opaque(ch)],
            v.cur_idx == 0,
    {
        let v = Self::new_opaque(ch, 1);
        assert(v.frames@ =~= seq![Frame::Opaque(ch)]);
        v
    }

    /// Create a new instance with `frames` copies of the given character coloured using `clr`
    /// as opaque frames.
    pub fn opaque_with_clr(ch: char, clr: Color, frames: usize) -> (v: Self)
        ensures
            v.frames@ == Seq::new(frames as nat, |i: int| Frame::Opaque(StyleCh { content: ch, fg: Some(clr), bg: None })),
            v.cur_idx == 0,
    {
        Self::new_opaque(StyleCh::with(ch, clr), frames)
    }

    /// Move to the next frame. True when the effect has shown all its frames.
    pub fn update(&mut self) -> (done: bool)
        requires
            old(self).cur_idx < usize::MAX,
        ensures
            final(self).cur_idx == old(self).cur_idx + 1,
            final(self).frames@ == old(self).frames@,
            done == (final(self).cur_idx == final(self).frames@.len()),
    {
        self.cur_idx = self.cur_idx + 1;
        self.cur_idx == self.frames.len()
    }

    /// What the current frame turns a character into.
    pub fn modify_txt(&self, txt: &StyleCh) -> (s: StyleCh)
        requires
            self.cur_idx < self.frames@.len(),
        ensures
            s == self.frames@[self.cur_idx as int].spec_map(*txt),
    {
        self.frames[self.cur_idx].map(txt)
    }
}


/// How deeply activations and laser beams may nest within one pass before the game gives up:
/// the largest bound there is, far deeper than any nesting can go before the stack runs out.
pub const ACT_FUEL: u64 = 18446744073709551615;

/// The grid after the passes at the start of a frame: everything is told the frame starts;
/// then every tile something stands on is told so; then every laser fires. Each pass's
/// commands are carried out before the next pass; `true` in the result when one of them won.
pub open spec fn spec_start_frame(g: GridView, inp: Map<Point, Seq<Clr>>, fuel: nat) -> Option<(GridView, Map<Point, Seq<Clr>>, bool)> {
    match spec_after_pass(g, ActSource::FrameStart, inp, fuel) {
        None => None,
        Some((g1, i1, w1)) => match spec_after_pass(g1, ActSource::StayOn, i1, fuel) {
            None => None,
            Some((g2, i2, w2)) => match spec_after_pass(g2, ActSource::LaserTime, i2, fuel) {
                None => None,
                Some((g3, i3, w3)) => Some((g3, i3, w1 || w2 || w3)),
            },
        },
    }
}

/// Start the frame.
pub fn start_frame(map: &mut Grid, inpts: &mut Inputs, fuel: u64) -> (r: Option<bool>)
    requires
        size_ok(old(map)@),
    ensures
        match spec_start_frame(old(map)@, old(inpts)@, fuel as nat) {
            None => r is None,
            Some((g, i, w)) => r == Some(w) && final(map)@ == g && final(inpts)@ == i,
        },
{
    let ghost g0 = map@;
    let w1 = match run_pass(map, ActSource::FrameStart, inpts, fuel) {
        None => {
            return None;
        },
        Some(w) => w,
    };
    proof {
        let (cmds, _) = frame::spec_pass(g0, ActSource::FrameStart, old(inpts)@, fuel as nat)->0;
        lemma_apply_all_size(g0, cmds, frame::nowhere());
    }
    let ghost g1 = map@;
    let w2 = match run_pass(map, ActSource::StayOn, inpts, fuel) {
        None => {
            return None;
        },
        Some(w) => w,
    };
    proof {
        let (_, i1, _) = spec_after_pass(g0, ActSource::FrameStart, old(inpts)@, fuel as nat)->0;
        let (cmds, _) = frame::spec_pass(g1, ActSource::StayOn, i1, fuel as nat)->0;
        lemma_apply_all_size(g1, cmds, frame::nowhere());
    }
    let w3 = match run_pass(map, ActSource::LaserTime, inpts, fuel) {
        None => {
            return None;
        },
        Some(w) => w,
    };
    Some(w1 || w2 || w3)
}

/// The grid after the end of a frame: every entity is marked as not yet updated, then
/// everything is told the frame ends. The colours recorded at objects are forgotten.
pub open spec fn spec_end_frame(g: GridView, inp: Map<Point, Seq<Clr>>, fuel: nat) -> Option<(GridView, bool)> {
    let g0 = GridView { ents: grid::spec_clear_updated(g.ents), ..g };
    match spec_after_pass(g0, ActSource::FrameEnd, inp, fuel) {
        None => None,
        Some((g1, _, w)) => Some((g1, w)),
    }
}

/// Do things required at the end of a frame.
pub fn end_frame(map: &mut Grid, inpts: &mut Inputs, fuel: u64) -> (r: Option<bool>)
    requires
        size_ok(old(map)@),
    ensures
        final(inpts)@ == Map::<Point, Seq<Clr>>::empty(),
        match spec_end_frame(old(map)@, old(inpts)@, fuel as nat) {
            None => r is None,
            Some((g, w)) => r == Some(w) && final(map)@ == g,
        },
{
    map.clear_updated();
    let r = run_pass(map, ActSource::FrameEnd, inpts, fuel);
    inpts.clear();
    r
}

/// The order in which an entity is updated: a player not yet updated goes first.
pub open spec fn spec_priority(e: Ent) -> u32 {
    if !e.updated && e.tp is Player {
        10
    } else {
        0
    }
}

/// A puzzle being played: the grid, the colours arriving at objects, the player's position
/// and the direction it tries to move in, whether the puzzle is won, and the moves played.
pub struct Game {
    pub map: Grid,
    pub inpts: Inputs,
    pub player: Point,
    pub dir: Point,
    pub won: bool,
    pub moves: Vec<Move>,
}

/// The state of a puzzle being played.
pub struct GameView {
    pub map: GridView,
    pub inpts: Map<Point, Seq<Clr>>,
    pub player: Point,
    pub dir: Point,
    pub won: bool,
    pub moves: Seq<Move>,
}

impl View for Game {
    type V = GameView;

    open spec fn view(&self) -> GameView {
        GameView { map: self.map@, inpts: self.inpts@, player: self.player, dir: self.dir, won: self.won, moves: self.moves@ }
    }
}

/// No entity waits to be updated.
pub open spec fn settled(g: GridView) -> bool {
    forall|p: Point| #[trigger] g.ents.contains_key(p) ==> spec_priority(g.ents[p]) == 0
}

/// The entity at `q` is one to update next: it waits to be updated and none has a higher
/// priority.
pub open spec fn next_to_update(g: GridView, q: Point) -> bool {
    &&& g.ents.contains_key(q)
    &&& spec_priority(g.ents[q]) > 0
    &&& forall|p: Point| g.ents.contains_key(p) ==> spec_priority(g.ents[p]) <= spec_priority(g.ents[q])
}

/// One update of a game: an entity to update next is updated and its commands carried out;
/// for the player this is a move attempt in the current direction, and a move is recorded.
pub open spec fn spec_step(s: GameView, t: GameView, fuel: nat) -> bool {
    exists|q: Point| {
        &&& #[trigger] next_to_update(s.map, q)
        &&& spec_ent_update(s.map.ents[q], s.map, s.player, s.dir, s.inpts, fuel) matches Some((c, i, moved))
        &&& t.map == spec_apply_all(s.map, c, q)
        &&& t.inpts == i
        &&& t.won == (s.won || spec_wins(c))
        &&& t.player == (if moved { s.player.add_spec(s.dir) } else { s.player })
        &&& t.moves == (if moved { s.moves.push(Move(s.dir)) } else { s.moves })
        &&& t.dir == s.dir
    }
}

/// The update of an entity to update next runs out of fuel.
pub open spec fn spec_stuck(s: GameView, fuel: nat) -> bool {
    exists|q: Point| #[trigger] next_to_update(s.map, q)
        && spec_ent_update(s.map.ents[q], s.map, s.player, s.dir, s.inpts, fuel) is None
}

/// `n` updates lead from one state of a game to the other.
pub open spec fn steps(a: GameView, b: GameView, n: nat, fuel: nat) -> bool
    decreases n,
{
    if n == 0 {
        a == b
    } else {
        exists|m: GameView| steps(a, m, (n - 1) as nat, fuel) && #[trigger] spec_step(m, b, fuel)
    }
}

/// The points of the entities waiting to be updated.
pub open spec fn pending(ents: Map<Point, Ent>) -> Set<Point> {
    ents.dom().filter(|p: Point| spec_priority(ents[p]) > 0)
}

proof fn lemma_pending_subset(a: Map<Point, Ent>, b: Map<Point, Ent>)
    requires
        a.dom().finite(),
        pending(b).subset_of(pending(a)),
    ensures
        pending(b).len() <= pending(a).len(),
{
    vstd::set_lib::lemma_len_subset(pending(b), pending(a));
}

/// Carrying out a command never adds an entity waiting to be updated, and marking one that
/// waits removes it.
proof fn lemma_pending_apply(g: GridView, cmd: Cmd, here: Point)
    requires
        g.ents.dom().finite(),
    ensures
        spec_apply(g, cmd, here).ents.dom().finite(),
        pending(spec_apply(g, cmd, here).ents).len() <= pending(g.ents).len(),
        cmd is MarkUpdatedHere && pending(g.ents).contains(here) ==> pending(spec_apply(g, cmd, here).ents).len() < pending(g.ents).len(),
{
    let e = g.ents;
    let a = spec_apply(g, cmd, here).ents;
    let pa = pending(e);
    vstd::set_lib::lemma_set_subset_finite(e.dom(), pa);
    match cmd {
        Cmd::ModifyEntity(p, m) => {
            assert(a.dom() =~= e.dom());
            assert(pending(a).subset_of(pa));
            lemma_pending_subset(e, a);
        },
        Cmd::MarkUpdatedHere => {
            assert(a.dom() =~= e.dom());
            assert(pending(a) =~= pa.remove(here));
        },
        Cmd::MoveTo(f, t) => {
            lemma_pending_move(e, f, t);
        },
        Cmd::DisplaceHere(d) => {
            if here.in_range() && d.in_range() {
                lemma_pending_move(e, here, here.add_spec(d));
            }
        },
        _ => {},
    }
}

proof fn lemma_pending_move(e: Map<Point, Ent>, f: Point, t: Point)
    requires
        e.dom().finite(),
    ensures
        spec_move(e, f, t).dom().finite(),
        pending(spec_move(e, f, t)).len() <= pending(e).len(),
{
    let a = spec_move(e, f, t);
    let pa = pending(e);
    vstd::set_lib::lemma_set_subset_finite(e.dom(), pa);
    if e.contains_key(f) && t.in_range() {
        if pa.contains(f) {
            let bound = pa.remove(f).insert(t);
            assert(pending(a).subset_of(bound));
            vstd::set_lib::lemma_len_subset(pending(a), bound);
        } else {
            assert(pending(a).subset_of(pa));
            vstd::set_lib::lemma_len_subset(pending(a), pa);
        }
    }
}

/// Carrying out commands never adds an entity waiting to be updated.
proof fn lemma_pending_apply_all(g: GridView, cmds: Seq<Cmd>, here: Point)
    requires
        g.ents.dom().finite(),
    ensures
        spec_apply_all(g, cmds, here).ents.dom().finite(),
        pending(spec_apply_all(g, cmds, here).ents).len() <= pending(g.ents).len(),
    decreases cmds.len(),
{
    if cmds.len() > 0 {
        lemma_pending_apply_all(g, cmds.drop_last(), here);
        lemma_pending_apply(spec_apply_all(g, cmds.drop_last(), here), cmds.last(), here);
    }
}

/// Commands that first mark the entity at `q`, which waits to be updated, leave fewer
/// entities waiting.
proof fn lemma_pending_marked(g: GridView, cmds: Seq<Cmd>, q: Point)
    requires
        g.ents.dom().finite(),
        cmds.len() > 0,
        cmds[0] is MarkUpdatedHere,
        pending(g.ents).contains(q),
    ensures
        pending(spec_apply_all(g, cmds, q).ents).len() < pending(g.ents).len(),
    decreases cmds.len(),
{
    if cmds.len() == 1 {
        assert(cmds.drop_last() =~= Seq::<Cmd>::empty());
        lemma_pending_apply(g, cmds[0], q);
    } else {
        lemma_pending_marked(g, cmds.drop_last(), q);
        lemma_pending_apply_all(g, cmds.drop_last(), q);
        lemma_pending_apply(spec_apply_all(g, cmds.drop_last(), q), cmds.last(), q);
    }
}

impl Game {
    /// Update the entity with the highest priority, if any has a priority above zero, and
    /// carry out its commands; `Some(false)` when there is none. For the player this is a
    /// move attempt in the current direction; a move is recorded.
    pub fn update(&mut self, fuel: u64) -> (r: Option<bool>)
        requires
            old(self).player.in_range(),
            is_step(old(self).dir),
        ensures
            final(self).dir == old(self).dir,
            final(self).player.in_range(),
            r == Some(false) ==> settled(old(self).map@) && final(self)@ == old(self)@,
            r == Some(true) ==> spec_step(old(self)@, final(self)@, fuel as nat),
            r is None ==> spec_stuck(old(self)@, fuel as nat),
    {
        let ps = self.map.entity_points();
        let mut best: usize = 0;
        let mut best_pri: u32 = 0;
        let mut i: usize = 0;
        while i < ps.len()
            invariant
                i <= ps@.len(),
                forall|p: Point| self.map@.ents.contains_key(p) <==> ps@.contains(p),
                best_pri == 0 ==> forall|k: int| 0 <= k < i ==> spec_priority(#[trigger] self.map@.ents[ps@[k]]) == 0,
                best_pri > 0 ==> best < ps@.len() && self.map@.ents.contains_key(ps@[best as int])
                    && best_pri == spec_priority(self.map@.ents[ps@[best as int]]),
                forall|k: int| 0 <= k < i ==> spec_priority(#[trigger] self.map@.ents[ps@[k]]) <= best_pri,
            decreases ps@.len() - i,
        {
            let p = ps[i];
            assert(ps@.contains(p));
            let e = self.map.get_ent(p).unwrap();
            let pr = e.priority();
            if pr > best_pri {
                best = i;
                best_pri = pr;
            }
            i = i + 1;
        }
        if best_pri == 0 {
            proof {
                assert forall|p: Point| #[trigger] self.map@.ents.contains_key(p) implies spec_priority(self.map@.ents[p]) == 0 by {
                    assert(ps@.contains(p));
                    let k = choose|k: int| 0 <= k < ps@.len() && ps@[k] == p;
                    assert(spec_priority(self.map@.ents[ps@[k]]) == 0);
                }
            }
            return Some(false);
        }
        let q = ps[best];
        proof {
            assert forall|p: Point| self.map@.ents.contains_key(p) implies spec_priority(self.map@.ents[p]) <= best_pri by {
                assert(ps@.contains(p));
                let k = choose|k: int| 0 <= k < ps@.len() && ps@[k] == p;
                assert(spec_priority(self.map@.ents[ps@[k]]) <= best_pri);
            }
            assert(next_to_update(self.map@, q));
        }
        let ghost s = self@;
        let r = match self.map.get_ent(q) {
            Some(e) => e.update(&self.map, self.player, self.dir, &mut self.inpts, fuel),
            None => {
                return Some(false);
            },
        };
        match r {
            None => None,
            Some((cmds, moved)) => {
                let w = self.map.actuate_comms(&cmds, q);
                self.won = self.won || w;
                if moved {
                    self.moves.push(Move::new(self.dir));
                    self.player = self.player.add(self.dir);
                }
                proof {
                    assert(spec_step(s, self@, fuel as nat)) by {
                        assert(next_to_update(s.map, q));
                    }
                }
                Some(true)
            },
        }
    }
}

/// Each update leaves fewer entities waiting to be updated.
proof fn lemma_step_decreases(s: GameView, t: GameView, fuel: nat)
    requires
        s.map.ents.dom().finite(),
        spec_step(s, t, fuel),
    ensures
        pending(t.map.ents).len() < pending(s.map.ents).len(),
{
    let q = choose|q: Point| {
        &&& #[trigger] next_to_update(s.map, q)
        &&& spec_ent_update(s.map.ents[q], s.map, s.player, s.dir, s.inpts, fuel) matches Some((c, i, moved))
        &&& t.map == spec_apply_all(s.map, c, q)
        &&& t.inpts == i
        &&& t.won == (s.won || spec_wins(c))
        &&& t.player == (if moved { s.player.add_spec(s.dir) } else { s.player })
        &&& t.moves == (if moved { s.moves.push(Move(s.dir)) } else { s.moves })
        &&& t.dir == s.dir
    };
    lemma_update_marks_first(s.map.ents[q], s.map, s.player, s.dir, s.inpts, fuel);
    let (c, i, moved) = spec_ent_update(s.map.ents[q], s.map, s.player, s.dir, s.inpts, fuel)->0;
    assert(pending(s.map.ents).contains(q));
    lemma_pending_marked(s.map, c, q);
}

/// The state of a game once every effect has moved to its next frame.
pub open spec fn after_vfx(s: GameView) -> GameView {
    GameView { map: GridView { effects: spec_update_vfx(s.map.effects), ..s.map }, ..s }
}

/// Make the move on the map: every effect moves to its next frame, then entities are updated
/// one at a time, one with the highest priority first, until none waits to be updated. False
/// when an update ran out of fuel.
pub fn mk_move(game: &mut Game, fuel: u64) -> (done: bool)
    requires
        old(game).player.in_range(),
        is_step(old(game).dir),
    ensures
        final(game).player.in_range(),
        final(game).dir == old(game).dir,
        done ==> exists|n: nat| #[trigger] steps(after_vfx(old(game)@), final(game)@, n, fuel as nat) && settled(final(game)@.map),
        !done ==> exists|n: nat, m: GameView| #[trigger] steps(after_vfx(old(game)@), m, n, fuel as nat) && spec_stuck(m, fuel as nat),
{
    game.map.update_vfx();
    let ghost start = game@;
    assert(start == after_vfx(old(game)@));
    let ghost mut n: nat = 0;
    loop
        invariant
            game.player.in_range(),
            is_step(game.dir),
            start == after_vfx(old(game)@),
            game.dir == old(game).dir,
            steps(start, game@, n, fuel as nat),
        decreases pending(game.map@.ents).len(),
    {
        proof {
            Grid::lemma_finite(game.map);
        }
        let ghost before = game@;
        match game.update(fuel) {
            Some(true) => {
                proof {
                    lemma_step_decreases(before, game@, fuel as nat);
                    let n0 = n;
                    n = n0 + 1;
                    assert((n - 1) as nat == n0);
                    assert(steps(start, before, n0, fuel as nat) && spec_step(before, game@, fuel as nat));
                    assert(steps(start, game@, n, fuel as nat));
                }
            },
            Some(false) => {
                assert(steps(after_vfx(old(game)@), game@, n, fuel as nat) && settled(game@.map));
                return true;
            },
            None => {
                assert(steps(after_vfx(old(game)@), before, n, fuel as nat) && spec_stuck(before, fuel as nat));
                return false;
            },
        }
    }
}

/// The state of a game at the end of a turn: every entity is marked as not yet updated and
/// the colours recorded at objects are forgotten.
pub open spec fn turn_end(s: GameView) -> GameView {
    GameView {
        map: GridView { ents: grid::spec_clear_updated(s.map.ents), ..s.map },
        inpts: Map::empty(),
        ..s
    }
}

/// The game with the player about to move in direction `dir`.
pub open spec fn with_dir(s: GameView, dir: Point) -> GameView {
    GameView { dir, ..s }
}

/// A turn in direction `dir` leads from `s` to `t`: the player tries to move in `dir`, the
/// move is made until no entity waits to be updated, and the turn ends.
pub open spec fn turn(s: GameView, dir: Point, t: GameView, fuel: nat) -> bool {
    exists|n: nat, m: GameView|
        #[trigger] steps(after_vfx(with_dir(s, dir)), m, n, fuel) && settled(m.map) && t == turn_end(m)
}

/// Turns in the given directions, one after the other, lead from `s` to `t`.
pub open spec fn turns(s: GameView, dirs: Seq<Point>, t: GameView, fuel: nat) -> bool
    decreases dirs.len(),
{
    if dirs.len() == 0 {
        t == s
    } else {
        exists|m: GameView| turns(s, dirs.drop_last(), m, fuel) && #[trigger] turn(m, dirs.last(), t, fuel)
    }
}

/// A turn after turns in the given directions makes turns in those directions and then the
/// new one.
proof fn lemma_turns_push(s: GameView, dirs: Seq<Point>, m: GameView, d: Point, t: GameView, fuel: nat)
    requires
        turns(s, dirs, m, fuel),
        turn(m, d, t, fuel),
    ensures
        turns(s, dirs.push(d), t, fuel),
{
    let ds = dirs.push(d);
    assert(ds.drop_last() =~= dirs);
    assert(ds.last() == d);
    assert(ds.len() > 0);
    assert(turns(s, ds.drop_last(), m, fuel));
    assert(turn(m, ds.last(), t, fuel));
    assert(exists|m2: GameView| turns(s, ds.drop_last(), m2, fuel) && #[trigger] turn(m2, ds.last(), t, fuel));
    assert(turns(s, ds, t, fuel));
}

/// Play one turn: the player tries to move in `dir`, the move is made, then every entity is
/// marked as not yet updated and the colours recorded at objects are forgotten. False when an
/// update ran out of fuel.
pub fn play_turn(game: &mut Game, dir: Point, fuel: u64) -> (done: bool)
    requires
        old(game).player.in_range(),
        is_step(dir),
    ensures
        final(game).player.in_range(),
        done ==> turn(old(game)@, dir, final(game)@, fuel as nat),
        done ==> moves_extend(old(game)@.moves, final(game)@.moves, dir),
        !done ==> exists|n: nat, m: GameView|
            #[trigger] steps(after_vfx(with_dir(old(game)@, dir)), m, n, fuel as nat) && spec_stuck(m, fuel as nat),
{
    game.dir = dir;
    let ghost s = game@;
    assert(s == with_dir(old(game)@, dir));
    let done = mk_move(game, fuel);
    if done {
        let ghost m = game@;
        game.map.clear_updated();
        game.inpts.clear();
        assert(game@ == turn_end(m));
        proof {
            let n = choose|n: nat| #[trigger] steps(after_vfx(s), m, n, fuel as nat) && settled(m.map);
            lemma_steps_moves(after_vfx(s), m, n, fuel as nat);
        }
    }
    done
}

/// The directions of the moves played.
pub open spec fn move_dirs(moves: Seq<Move>) -> Seq<Point> {
    moves.map_values(|m: Move| m.0)
}

/// A turn in direction `dir` from `s` reaches a state where an update runs out of fuel.
pub open spec fn stuck_in_turn(s: GameView, dir: Point, fuel: nat) -> bool {
    exists|n: nat, m: GameView| #[trigger] steps(after_vfx(with_dir(s, dir)), m, n, fuel) && spec_stuck(m, fuel)
}

/// Playing the turns in the given directions from `g0` gets stuck: after the turns before
/// some direction, the turn in that direction reaches an update that runs out of fuel.
pub open spec fn replay_stuck(g0: GameView, dirs: Seq<Point>, fuel: nat) -> bool {
    exists|k: int, m: GameView| 0 <= k < dirs.len() && #[trigger] turns(g0, dirs.take(k), m, fuel) && stuck_in_turn(m, dirs[k], fuel)
}

/// Undo the previous move: the puzzle starts again and every move played but the last is
/// played again, in order. A game with no move played is left as it is. False when an update
/// ran out of fuel while playing a move again.
pub fn undo(game: &mut Game, pzl: &Puzzle, fuel: u64) -> (done: bool)
    requires
        pzl.pl_pos.in_range(),
        forall|k: int| 0 <= k < old(game).moves@.len() ==> is_step(#[trigger] old(game).moves@[k].0),
    ensures
        old(game).moves@.len() == 0 ==> done && final(game)@ == old(game)@,
        old(game).moves@.len() > 0 && done ==> exists|g0: GameView|
            #[trigger] fresh(*pzl, g0) && turns(g0, move_dirs(old(game).moves@.drop_last()), final(game)@, fuel as nat),
        old(game).moves@.len() > 0 && !done ==> exists|g0: GameView|
            #[trigger] fresh(*pzl, g0) && replay_stuck(g0, move_dirs(old(game).moves@.drop_last()), fuel as nat),
{
    let n = game.moves.len();
    if n == 0 {
        return true;
    }
    let dirs: Vec<Point> = {
        let mut ds: Vec<Point> = Vec::new();
        let mut k: usize = 0;
        while k < n - 1
            invariant
                n == old(game).moves@.len(),
                game.moves@ == old(game).moves@,
                k <= n - 1,
                ds@ == move_dirs(old(game).moves@.take(k as int)),
            decreases n - 1 - k,
        {
            ds.push(game.moves[k].0);
            assert(old(game).moves@.take(k + 1) =~= old(game).moves@.take(k as int).push(old(game).moves@[k as int]));
            assert(move_dirs(old(game).moves@.take(k + 1)) =~= move_dirs(old(game).moves@.take(k as int)).push(old(game).moves@[k as int].0));
            k = k + 1;
        }
        ds
    };
    assert(old(game).moves@.take(n - 1) =~= old(game).moves@.drop_last());
    let ghost all = dirs@;
    assert forall|k: int| 0 <= k < all.len() implies is_step(#[trigger] all[k]) by {
        assert(all[k] == old(game).moves@[k].0);
    }
    *game = start_puzzle(pzl);
    let ghost g0 = game@;
    let mut i: usize = 0;
    while i < dirs.len()
        invariant
            dirs@ == all,
            old(game).moves@.len() > 0,
            all == move_dirs(old(game).moves@.drop_last()),
            forall|k: int| 0 <= k < all.len() ==> is_step(#[trigger] all[k]),
            i <= all.len(),
            game.player.in_range(),
            fresh(*pzl, g0),
            turns(g0, all.take(i as int), game@, fuel as nat),
        decreases all.len() - i,
    {
        let ghost before = game@;
        if !play_turn(game, dirs[i], fuel) {
            proof {
                assert(stuck_in_turn(before, all[i as int], fuel as nat));
                assert(turns(g0, all.take(i as int), before, fuel as nat));
                assert(replay_stuck(g0, all, fuel as nat));
            }
            return false;
        }
        proof {
            lemma_turns_push(g0, all.take(i as int), before, all[i as int], game@, fuel as nat);
            assert(all.take(i as int).push(all[i as int]) =~= all.take(i + 1));
        }
        i = i + 1;
    }
    assert(all.take(all.len() as int) =~= all);
    true
}

/// The tile is an exit: walking on to it wins, and it does nothing else.
pub open spec fn is_exit_tile(t: Tile) -> bool {
    t.handlers@ == seq![ActHandler { src: ActSource::PlWalkOn, ef: ActEffect::Win }]
}

/// The player walking on to an exit gives exactly the command that wins.
proof fn lemma_exit_activation(t: Tile, g: GridView, pos: Point, inp: Map<Point, Seq<Clr>>, fuel: nat)
    requires
        is_exit_tile(t),
    ensures
        entity::activation::spec_tile_activate(t, g, ActSource::PlWalkOn, pos, inp, fuel) == Some((seq![Cmd::Win], inp)),
{
    let hs = t.handlers@;
    assert(entity::activation::spec_handlers(hs, 1, g, ActSource::PlWalkOn, pos, inp, fuel) == Some((Seq::<Cmd>::empty(), inp)));
    assert(entity::activation::spec_handler(hs[0], g, ActSource::PlWalkOn, pos, inp, fuel) == Some((seq![Cmd::Win], inp)));
    assert(seq![Cmd::Win] + Seq::<Cmd>::empty() =~= seq![Cmd::Win]);
}

/// The player reaching an exit wins the puzzle: in an update in which the player moves, on
/// to a point whose tile is an exit, the puzzle is won.
pub proof fn lemma_exit_wins(s: GameView, t: GameView, fuel: nat)
    requires
        spec_step(s, t, fuel),
        t.moves.len() == s.moves.len() + 1,
        s.map.tiles.contains_key(t.player),
        is_exit_tile(s.map.tiles[t.player]),
    ensures
        t.won,
{
    let q = choose|q: Point| {
        &&& #[trigger] next_to_update(s.map, q)
        &&& spec_ent_update(s.map.ents[q], s.map, s.player, s.dir, s.inpts, fuel) matches Some((c, i, moved))
        &&& t.map == spec_apply_all(s.map, c, q)
        &&& t.inpts == i
        &&& t.won == (s.won || spec_wins(c))
        &&& t.player == (if moved { s.player.add_spec(s.dir) } else { s.player })
        &&& t.moves == (if moved { s.moves.push(Move(s.dir)) } else { s.moves })
        &&& t.dir == s.dir
    };
    let e = s.map.ents[q];
    let (c, i, moved) = spec_ent_update(e, s.map, s.player, s.dir, s.inpts, fuel)->0;
    assert(moved);
    assert(e.tp is Player);
    let g = s.map;
    let nx = s.player.add_spec(s.dir);
    let nx2 = nx.add_spec(s.dir);
    let start = seq![Cmd::MarkUpdatedHere];
    assert(t.player == nx);
    lemma_exit_activation(g.tiles[nx], g, nx, s.inpts, fuel);
    if g.ents.contains_key(nx) {
        let (c1, i1) = entity::activation::spec_tile_activate(g.tiles[nx2], g, ActSource::WalkOn, nx2, s.inpts, fuel)->0;
        let cmds = start + seq![Cmd::MoveTo(nx, nx2)] + c1;
        lemma_exit_activation(g.tiles[nx], g, nx, i1, fuel);
        assert(c == cmds + seq![Cmd::Win] + seq![Cmd::DisplaceHere(s.dir)]);
        assert(c[cmds.len() as int] is Win);
    } else {
        assert(c == start + seq![Cmd::Win] + seq![Cmd::DisplaceHere(s.dir)]);
        assert(c[1] is Win);
    }
    assert(spec_wins(c));
}

/// A turn never pushes an entity on to another: in an update in which the player moves and a
/// move is recorded, if an entity stood on the cell the player moves on to, then the cell
/// beyond it held no entity, could be walked on, and that entity could be pushed.
pub proof fn lemma_push_needs_room_in_step(s: GameView, t: GameView, fuel: nat)
    requires
        spec_step(s, t, fuel),
        t.moves.len() == s.moves.len() + 1,
        s.map.ents.contains_key(s.player.add_spec(s.dir)),
    ensures
        t.player == s.player.add_spec(s.dir),
        s.map.ents[t.player].movable,
        !s.map.ents.contains_key(t.player.add_spec(s.dir)),
        entity::activation::spec_walkable_at(s.map, t.player.add_spec(s.dir)),
{
    let q = choose|q: Point| {
        &&& #[trigger] next_to_update(s.map, q)
        &&& spec_ent_update(s.map.ents[q], s.map, s.player, s.dir, s.inpts, fuel) matches Some((c, i, moved))
        &&& t.map == spec_apply_all(s.map, c, q)
        &&& t.inpts == i
        &&& t.won == (s.won || spec_wins(c))
        &&& t.player == (if moved { s.player.add_spec(s.dir) } else { s.player })
        &&& t.moves == (if moved { s.moves.push(Move(s.dir)) } else { s.moves })
        &&& t.dir == s.dir
    };
    let e = s.map.ents[q];
    let (c, i, moved) = spec_ent_update(e, s.map, s.player, s.dir, s.inpts, fuel)->0;
    assert(moved);
    entity::activation::lemma_push_needs_room(e, s.map, s.player, s.dir, s.inpts, fuel);
}

proof fn lemma_steps_keep_won(a: GameView, b: GameView, n: nat, fuel: nat)
    requires
        steps(a, b, n, fuel),
        a.won,
    ensures
        b.won,
    decreases n,
{
    if n > 0 {
        let m = choose|m: GameView| steps(a, m, (n - 1) as nat, fuel) && #[trigger] spec_step(m, b, fuel);
        lemma_steps_keep_won(a, m, (n - 1) as nat, fuel);
    }
}

/// A won puzzle stays won, whatever turns follow.
pub proof fn lemma_won_stays(s: GameView, dirs: Seq<Point>, t: GameView, fuel: nat)
    requires
        turns(s, dirs, t, fuel),
        s.won,
    ensures
        t.won,
    decreases dirs.len(),
{
    if dirs.len() > 0 {
        let m = choose|m: GameView| turns(s, dirs.drop_last(), m, fuel) && #[trigger] turn(m, dirs.last(), t, fuel);
        lemma_won_stays(s, dirs.drop_last(), m, fuel);
        let (n, m2) = choose|n: nat, m2: GameView|
            #[trigger] steps(after_vfx(with_dir(m, dirs.last())), m2, n, fuel) && settled(m2.map) && t == turn_end(m2);
        lemma_steps_keep_won(after_vfx(with_dir(m, dirs.last())), m2, n, fuel);
    }
}

/// The moves `b` are the moves `a` followed by moves in direction `d` only.
pub open spec fn moves_extend(a: Seq<Move>, b: Seq<Move>, d: Point) -> bool {
    &&& a.len() <= b.len()
    &&& b.subrange(0, a.len() as int) == a
    &&& forall|k: int| a.len() <= k < b.len() ==> #[trigger] b[k] == Move(d)
}

proof fn lemma_steps_moves(a: GameView, b: GameView, n: nat, fuel: nat)
    requires
        steps(a, b, n, fuel),
    ensures
        b.dir == a.dir,
        moves_extend(a.moves, b.moves, a.dir),
    decreases n,
{
    if n == 0 {
        assert(b.moves.subrange(0, a.moves.len() as int) =~= a.moves);
    } else {
        let m = choose|m: GameView| steps(a, m, (n - 1) as nat, fuel) && #[trigger] spec_step(m, b, fuel);
        lemma_steps_moves(a, m, (n - 1) as nat, fuel);
        if b.moves.len() > m.moves.len() {
            assert(b.moves == m.moves.push(Move(m.dir)));
        }
        assert(b.moves.subrange(0, a.moves.len() as int) =~= a.moves);
    }
}

/// Undoing after a turn in which one move was played plays again exactly the moves played
/// before that turn.
pub proof fn lemma_undo_after_turn(s: GameView, dir: Point, t: GameView, fuel: nat)
    requires
        turn(s, dir, t, fuel),
        t.moves.len() == s.moves.len() + 1,
    ensures
        move_dirs(t.moves.drop_last()) == move_dirs(s.moves),
        t.moves.last() == Move(dir),
{
    let (n, m) = choose|n: nat, m: GameView|
        #[trigger] steps(after_vfx(with_dir(s, dir)), m, n, fuel) && settled(m.map) && t == turn_end(m);
    lemma_steps_moves(after_vfx(with_dir(s, dir)), m, n, fuel);
    assert(t.moves.drop_last() =~= t.moves.subrange(0, s.moves.len() as int));
}
/// An update in which nothing moves only marks an entity as updated: the tiles, the player's
/// position and whether the puzzle is won stay as they were.
proof fn lemma_step_without_move(s: GameView, t: GameView, fuel: nat)
    requires
        spec_step(s, t, fuel),
        t.moves.len() == s.moves.len(),
    ensures
        t.map.tiles == s.map.tiles,
        t.player == s.player,
        t.won == s.won,
{
    let q = choose|q: Point| {
        &&& #[trigger] next_to_update(s.map, q)
        &&& spec_ent_update(s.map.ents[q], s.map, s.player, s.dir, s.inpts, fuel) matches Some((c, i, moved))
        &&& t.map == spec_apply_all(s.map, c, q)
        &&& t.inpts == i
        &&& t.won == (s.won || spec_wins(c))
        &&& t.player == (if moved { s.player.add_spec(s.dir) } else { s.player })
        &&& t.moves == (if moved { s.moves.push(Move(s.dir)) } else { s.moves })
        &&& t.dir == s.dir
    };
    let (c, i, moved) = spec_ent_update(s.map.ents[q], s.map, s.player, s.dir, s.inpts, fuel)->0;
    assert(!moved);
    assert(c == seq![Cmd::MarkUpdatedHere]);
    assert(c.drop_last().len() == 0);
    assert(spec_apply_all(s.map, c.drop_last(), q) == s.map);
    assert(!spec_wins(c));
}

/// Updates that play one move, on to a point whose tile was an exit when they began, win.
proof fn lemma_steps_to_exit(a: GameView, b: GameView, n: nat, fuel: nat)
    requires
        steps(a, b, n, fuel),
        b.moves.len() == a.moves.len() + 1,
        a.map.tiles.contains_key(b.player),
        is_exit_tile(a.map.tiles[b.player]),
    ensures
        b.won,
    decreases n,
{
    if n > 0 {
        let m = choose|m: GameView| steps(a, m, (n - 1) as nat, fuel) && #[trigger] spec_step(m, b, fuel);
        lemma_steps_moves(a, m, (n - 1) as nat, fuel);
        if m.moves.len() == b.moves.len() {
            lemma_step_without_move(m, b, fuel);
            lemma_steps_to_exit(a, m, (n - 1) as nat, fuel);
        } else {
            assert(m.moves.len() == a.moves.len());
            lemma_steps_without_move(a, m, (n - 1) as nat, fuel);
            lemma_exit_wins(m, b, fuel);
        }
    }
}

/// Updates that play no move keep the tiles and the player's position.
proof fn lemma_steps_without_move(a: GameView, b: GameView, n: nat, fuel: nat)
    requires
        steps(a, b, n, fuel),
        b.moves.len() == a.moves.len(),
    ensures
        b.map.tiles == a.map.tiles,
        b.player == a.player,
    decreases n,
{
    if n > 0 {
        let m = choose|m: GameView| steps(a, m, (n - 1) as nat, fuel) && #[trigger] spec_step(m, b, fuel);
        lemma_steps_moves(a, m, (n - 1) as nat, fuel);
        assert(steps(m, m, 0, fuel));
        assert(steps(m, b, 1, fuel));
        lemma_steps_moves(m, b, 1, fuel);
        lemma_step_without_move(m, b, fuel);
        lemma_steps_without_move(a, m, (n - 1) as nat, fuel);
    }
}

/// Moving on to the exit completes the puzzle: a turn in which the player makes a move and
/// ends on a point whose tile was an exit when the turn began wins the puzzle.
pub proof fn lemma_turn_to_exit_wins(s: GameView, dir: Point, t: GameView, fuel: nat)
    requires
        turn(s, dir, t, fuel),
        t.moves.len() == s.moves.len() + 1,
        s.map.tiles.contains_key(t.player),
        is_exit_tile(s.map.tiles[t.player]),
    ensures
        t.won,
{
    let (n, m) = choose|n: nat, m: GameView|
        #[trigger] steps(after_vfx(with_dir(s, dir)), m, n, fuel) && settled(m.map) && t == turn_end(m);
    lemma_steps_to_exit(after_vfx(with_dir(s, dir)), m, n, fuel);
}

} // verus!
