//! The passes over the grid at the start and end of every frame.

use vstd::prelude::*;
use crate::beam::Inputs;
use crate::entity::activation::{ActSource, Outcome, seq_outcome, spec_ent_activate, spec_tile_activate};
use crate::grid::{Cmd, Grid, GridView, spec_apply_all, spec_wins};
use crate::point::Point;

verus! {

/// The grid is small enough for its cells to have coordinates in range.
pub open spec fn size_ok(g: GridView) -> bool {
    g.wid < 1_000_000_000 && g.hgt <= 1_000_000_000
}

/// The effect of the activations a pass makes at one cell: at the start of the frame and at
/// its end, the entity and then the tile; for `StayOn`, the tile when an entity stands on
/// it; when lasers fire, the entity.
pub open spec fn spec_cell(g: GridView, src: ActSource, p: Point, inp: Map<Point, Seq<crate::beam::Clr>>, fuel: nat) -> Outcome {
    if src == ActSource::StayOn {
        if g.tiles.contains_key(p) && g.ents.contains_key(p) {
            spec_tile_activate(g.tiles[p], g, src, p, inp, fuel)
        } else {
            Some((seq![], inp))
        }
    } else if src == ActSource::LaserTime {
        if g.ents.contains_key(p) {
            spec_ent_activate(g.ents[p], g, src, p, inp, fuel)
        } else {
            Some((seq![], inp))
        }
    } else {
        let r1 = if g.ents.contains_key(p) {
            spec_ent_activate(g.ents[p], g, src, p, inp, fuel)
        } else {
            Some((seq![], inp))
        };
        match r1 {
            None => None,
            Some((c1, i1)) => if g.tiles.contains_key(p) {
                seq_outcome(r1, spec_tile_activate(g.tiles[p], g, src, p, i1, fuel))
            } else {
                r1
            },
        }
    }
}

/// The effect of a pass over the cells of row `y` from column `x` up to the grid's width
/// (inclusive).
pub open spec fn spec_row(g: GridView, src: ActSource, y: int, x: int, inp: Map<Point, Seq<crate::beam::Clr>>, fuel: nat) -> Outcome
    decreases g.wid + 1 - x,
{
    if x < 0 || x > g.wid {
        Some((seq![], inp))
    } else {
        let r1 = spec_cell(g, src, Point { x: x as i32, y: y as i32 }, inp, fuel);
        match r1 {
            None => None,
            Some((c1, i1)) => seq_outcome(r1, spec_row(g, src, y, x + 1, i1, fuel)),
        }
    }
}

/// The effect of a pass over rows `n - 1` down to 0.
pub open spec fn spec_rows(g: GridView, src: ActSource, n: int, inp: Map<Point, Seq<crate::beam::Clr>>, fuel: nat) -> Outcome
    decreases n,
{
    if n <= 0 {
        Some((seq![], inp))
    } else {
        let r1 = spec_row(g, src, n - 1, 0, inp, fuel);
        match r1 {
            None => None,
            Some((c1, i1)) => seq_outcome(r1, spec_rows(g, src, n - 1, i1, fuel)),
        }
    }
}

/// The effect of a pass over the whole grid, from the top row down.
pub open spec fn spec_pass(g: GridView, src: ActSource, inp: Map<Point, Seq<crate::beam::Clr>>, fuel: nat) -> Outcome {
    spec_rows(g, src, g.hgt as int, inp, fuel)
}

/// The point the commands of a pass are carried out for: none of the grid's cells.
pub open spec fn nowhere() -> Point {
    Point { x: 999, y: 999 }
}

fn cell(map: &Grid, src: ActSource, p: Point, inpts: &mut Inputs, fuel: u64) -> (r: Option<Vec<Cmd>>)
    requires
        p.in_range(),
    ensures
        match r {
            Some(c) => spec_cell(map@, src, p, old(inpts)@, fuel as nat) == Some((c@, final(inpts)@)),
            None => spec_cell(map@, src, p, old(inpts)@, fuel as nat) is None,
        },
{
    if src == ActSource::StayOn {
        match map.get_map(p) {
            Some(t) => if map.get_ent(p).is_some() {
                t.activate(map, src, p, inpts, fuel)
            } else {
                Some(Vec::new())
            },
            None => Some(Vec::new()),
        }
    } else if src == ActSource::LaserTime {
        match map.get_ent(p) {
            Some(e) => e.activate(map, src, p, inpts, fuel),
            None => Some(Vec::new()),
        }
    } else {
        let mut c1 = match map.get_ent(p) {
            Some(e) => match e.activate(map, src, p, inpts, fuel) {
                None => {
                    return None;
                },
                Some(c) => c,
            },
            None => Vec::new(),
        };
        match map.get_map(p) {
            Some(t) => match t.activate(map, src, p, inpts, fuel) {
                None => None,
                Some(c2) => {
                    let mut c2 = c2;
                    c1.append(&mut c2);
                    Some(c1)
                },
            },
            None => Some(c1),
        }
    }
}

fn row(map: &Grid, src: ActSource, y: usize, x: usize, inpts: &mut Inputs, fuel: u64) -> (r: Option<Vec<Cmd>>)
    requires
        size_ok(map@),
        y < map@.hgt,
    ensures
        match r {
            Some(c) => spec_row(map@, src, y as int, x as int, old(inpts)@, fuel as nat) == Some((c@, final(inpts)@)),
            None => spec_row(map@, src, y as int, x as int, old(inpts)@, fuel as nat) is None,
        },
    decreases map@.wid + 1 - x,
{
    if x > map.wid() {
        return Some(Vec::new());
    }
    let p = Point::new(x as i32, y as i32);
    match cell(map, src, p, inpts, fuel) {
        None => None,
        Some(c1) => match row(map, src, y, x + 1, inpts, fuel) {
            None => None,
            Some(c2) => {
                let mut c1 = c1;
                let mut c2 = c2;
                c1.append(&mut c2);
                Some(c1)
            },
        },
    }
}

fn rows(map: &Grid, src: ActSource, n: usize, inpts: &mut Inputs, fuel: u64) -> (r: Option<Vec<Cmd>>)
    requires
        size_ok(map@),
        n <= map@.hgt,
    ensures
        match r {
            Some(c) => spec_rows(map@, src, n as int, old(inpts)@, fuel as nat) == Some((c@, final(inpts)@)),
            None => spec_rows(map@, src, n as int, old(inpts)@, fuel as nat) is None,
        },
    decreases n,
{
    if n == 0 {
        return Some(Vec::new());
    }
    match row(map, src, n - 1, 0, inpts, fuel) {
        None => None,
        Some(c1) => match rows(map, src, n - 1, inpts, fuel) {
            None => None,
            Some(c2) => {
                let mut c1 = c1;
                let mut c2 = c2;
                c1.append(&mut c2);
                Some(c1)
            },
        },
    }
}

/// Collect the commands of a pass over the whole grid, from the top row down.
pub fn pass(map: &Grid, src: ActSource, inpts: &mut Inputs, fuel: u64) -> (r: Option<Vec<Cmd>>)
    requires
        size_ok(map@),
    ensures
        match r {
            Some(c) => spec_pass(map@, src, old(inpts)@, fuel as nat) == Some((c@, final(inpts)@)),
            None => spec_pass(map@, src, old(inpts)@, fuel as nat) is None,
        },
{
    rows(map, src, map.hgt(), inpts, fuel)
}

/// The grid after a pass: its commands carried out.
pub open spec fn spec_after_pass(g: GridView, src: ActSource, inp: Map<Point, Seq<crate::beam::Clr>>, fuel: nat) -> Option<(GridView, Map<Point, Seq<crate::beam::Clr>>, bool)> {
    match spec_pass(g, src, inp, fuel) {
        None => None,
        Some((c, i)) => Some((spec_apply_all(g, c, nowhere()), i, spec_wins(c))),
    }
}

/// Make a pass over the grid and carry out its commands. `None` when activations nest deeper
/// than the fuel allows (the grid is then unchanged); otherwise whether the pass won.
pub fn run_pass(map: &mut Grid, src: ActSource, inpts: &mut Inputs, fuel: u64) -> (r: Option<bool>)
    requires
        size_ok(old(map)@),
    ensures
        match spec_after_pass(old(map)@, src, old(inpts)@, fuel as nat) {
            None => r is None && final(map)@ == old(map)@,
            Some((g, i, w)) => r == Some(w) && final(map)@ == g && final(inpts)@ == i,
        },
{
    match pass(map, src, inpts, fuel) {
        None => None,
        Some(cmds) => Some(map.actuate_comms(&cmds, Point::new(999, 999))),
    }
}


/// In the pass over tiles something stands on, a cell that holds no entity contributes
/// nothing: no command, and the recorded colours stay as they are.
pub proof fn lemma_stay_on_needs_entity(g: GridView, p: Point, inp: Map<Point, Seq<crate::beam::Clr>>, fuel: nat)
    requires
        !g.ents.contains_key(p),
    ensures
        spec_cell(g, ActSource::StayOn, p, inp, fuel) == Some((Seq::<Cmd>::empty(), inp)),
{
}

proof fn lemma_stay_on_row_empty(g: GridView, y: int, x: int, inp: Map<Point, Seq<crate::beam::Clr>>, fuel: nat)
    requires
        g.ents.dom().is_empty(),
    ensures
        spec_row(g, ActSource::StayOn, y, x, inp, fuel) == Some((Seq::<Cmd>::empty(), inp)),
    decreases g.wid + 1 - x,
{
    if !(x < 0 || x > g.wid) {
        let p = Point { x: x as i32, y: y as i32 };
        assert(!g.ents.dom().contains(p));
        lemma_stay_on_needs_entity(g, p, inp, fuel);
        lemma_stay_on_row_empty(g, y, x + 1, inp, fuel);
        assert(Seq::<Cmd>::empty() + Seq::<Cmd>::empty() =~= Seq::<Cmd>::empty());
    }
}

proof fn lemma_stay_on_rows_empty(g: GridView, n: int, inp: Map<Point, Seq<crate::beam::Clr>>, fuel: nat)
    requires
        g.ents.dom().is_empty(),
    ensures
        spec_rows(g, ActSource::StayOn, n, inp, fuel) == Some((Seq::<Cmd>::empty(), inp)),
    decreases n,
{
    if n > 0 {
        lemma_stay_on_row_empty(g, n - 1, 0, inp, fuel);
        lemma_stay_on_rows_empty(g, n - 1, inp, fuel);
        assert(Seq::<Cmd>::empty() + Seq::<Cmd>::empty() =~= Seq::<Cmd>::empty());
    }
}

/// On a grid without entities nothing stands on any tile: the pass over tiles something stands
/// on issues no command and leaves the recorded colours, so it changes nothing.
pub proof fn lemma_stay_on_pass_without_entities(g: GridView, inp: Map<Point, Seq<crate::beam::Clr>>, fuel: nat)
    requires
        g.ents.dom().is_empty(),
    ensures
        spec_pass(g, ActSource::StayOn, inp, fuel) == Some((Seq::<Cmd>::empty(), inp)),
        spec_after_pass(g, ActSource::StayOn, inp, fuel) == Some((g, inp, false)),
{
    lemma_stay_on_rows_empty(g, g.hgt as int, inp, fuel);
    assert(spec_apply_all(g, Seq::<Cmd>::empty(), nowhere()) == g);
    assert(!spec_wins(Seq::<Cmd>::empty()));
}
} // verus!
