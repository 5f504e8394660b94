//! Reading back the text a grid writes.

use vstd::prelude::*;
use crate::style::Color;
use crate::point::Point;
use crate::grid::GridView;
use crate::entity::Ent;
use crate::Tile;
use crate::text::{spec_ascii_lower, spec_ascii_upper};
use super::ts::{BanditObj, spec_key};
use crate::text::{terminated, plain_line, lemma_lines_terminated};
use super::{spec_map_clr, spec_map_ch, is_upper, cell_text, row_text, rows_text, spec_rows, cell_clr, cell_key,
    cell_is_en, movable_before, movable_at, rows_width, rows_ok, row_ok, is_cell, done_cell, cell_placed,
    grid_of_text, player_cell, has_player, pzl_text_ok, last_player, Puzzle, PuzzlePack, pack_name, pack_blocks,
    blocks_from, pack_loaded};
use crate::text::{spec_trim, spec_lines, lemma_terminated_append};
use crate::loader::saver::{spec_pack_text, pzls_lines, block_lines};

verus! {

/// The letter naming a colour in puzzle files is a lower case ASCII letter: reading it, or
/// its upper case form, gives the colour back.
proof fn lemma_letter(c: Color)
    requires
        spec_map_clr(c) is Some,
    ensures
        !is_upper(spec_map_clr(c)->0),
        is_upper(spec_ascii_upper(spec_map_clr(c)->0)),
        spec_map_ch(spec_ascii_lower(spec_map_clr(c)->0)) == Some(c),
        spec_map_ch(spec_ascii_lower(spec_ascii_upper(spec_map_clr(c)->0))) == Some(c),
        spec_map_clr(c)->0 != '\n',
        spec_ascii_upper(spec_map_clr(c)->0) != '\n',
{
    let l = spec_map_clr(c)->0;
    assert('a' <= l && l <= 'z');
    assert(spec_ascii_lower(l) == l);
    let u = spec_ascii_upper(l);
    assert(u == ((l as u32) - 32) as char);
    assert('A' <= u && u <= 'Z');
    assert(spec_ascii_lower(u) == ((u as u32) + 32) as char);
    assert(spec_ascii_lower(u) == l);
}

/// The character written for an object is neither a line feed nor a carriage return.
pub open spec fn plain_char(c: char) -> bool {
    c != '\n' && c != '\r'
}

/// An entity the tile set reads back from what it writes: its colour has a letter, its
/// character is plain, and the tile set holds, under its key, an entity that differs from it
/// at most in whether it can be pushed; it stands on the default tile.
pub open spec fn ent_reloads(e: Ent, t: Tile, ts: Map<(char, Color), BanditObj>, dt: Tile) -> bool {
    &&& e.has_file_colour()
    &&& plain_char(e.ch.content)
    &&& ts.contains_key(spec_key(e.ch))
    &&& ts[spec_key(e.ch)] matches BanditObj::En(e0) && e.same_as(Ent { movable: e.movable, ..e0 })
    &&& t.same_as(dt)
}

/// A tile the tile set reads back from what it writes: its colour has a letter, its character
/// is plain, and the tile set holds the same tile under the key of its current look.
pub open spec fn tile_reloads(t: Tile, ts: Map<(char, Color), BanditObj>) -> bool {
    &&& t.has_file_colour()
    &&& plain_char(t.spec_cur_state().ch.content)
    &&& ts.contains_key(spec_key(t.spec_cur_state().ch))
    &&& ts[spec_key(t.spec_cur_state().ch)] matches BanditObj::Tile(t0) && t.same_as(t0)
}

/// A grid that reads back from the text it writes: every point inside its size holds a tile
/// and nothing lies outside it, it shows no effect, and everything in it is something the
/// tile set reads back.
pub open spec fn reloadable(g: GridView, ts: Map<(char, Color), BanditObj>, dt: Tile) -> bool {
    &&& 0 < g.hgt < 1_000_000_000
    &&& g.wid < 1_000_000_000
    &&& g.effects.len() == 0
    &&& forall|p: Point| #[trigger] g.tiles.contains_key(p) <==> (0 <= p.x < g.wid && 0 <= p.y < g.hgt)
    &&& forall|p: Point| #[trigger] g.ents.contains_key(p) ==> g.tiles.contains_key(p) && ent_reloads(g.ents[p], g.tiles[p], ts, dt)
    &&& forall|p: Point| #[trigger] g.tiles.contains_key(p) && !g.ents.contains_key(p) ==> tile_reloads(g.tiles[p], ts)
}

/// The point of column `x` in row `y`.
pub open spec fn at(x: int, y: int) -> Point {
    Point { x: x as i32, y: y as i32 }
}

/// A point inside a reloadable grid writes two characters: a colour letter and a plain
/// character; one outside it writes nothing.
proof fn lemma_cell_text(g: GridView, ts: Map<(char, Color), BanditObj>, dt: Tile, x: int, y: int)
    requires
        reloadable(g, ts, dt),
        0 <= y < g.hgt,
        0 <= x <= g.wid,
    ensures
        x < g.wid ==> cell_text(g, at(x, y)).len() == 2 && plain_char(cell_text(g, at(x, y))[1])
            && cell_text(g, at(x, y))[0] != '\n',
        x == g.wid ==> cell_text(g, at(x, y)).len() == 0,
{
    let p = at(x, y);
    if x < g.wid {
        assert(g.tiles.contains_key(p));
        if g.ents.contains_key(p) {
            lemma_letter(g.ents[p].ch.fg->0);
        } else {
            lemma_letter(g.tiles[p].spec_cur_state().ch.fg->0);
        }
    } else {
        assert(!g.tiles.contains_key(p));
        if g.ents.contains_key(p) {
            assert(g.tiles.contains_key(p));
        }
    }
}

/// The first `k` points of row `y` of a reloadable grid write two characters for each point
/// inside the grid, in order.
proof fn lemma_row_text(g: GridView, ts: Map<(char, Color), BanditObj>, dt: Tile, y: int, k: int)
    requires
        reloadable(g, ts, dt),
        0 <= y < g.hgt,
        0 <= k <= g.wid + 1,
    ensures
        row_text(g, y, k).len() == 2 * (if k <= g.wid { k } else { g.wid as int }),
        forall|x: int| 0 <= x < k && x < g.wid ==> {
            &&& #[trigger] row_text(g, y, k)[2 * x] == cell_text(g, at(x, y))[0]
            &&& row_text(g, y, k)[2 * x + 1] == cell_text(g, at(x, y))[1]
        },
    decreases k,
{
    if k > 0 {
        lemma_row_text(g, ts, dt, y, k - 1);
        lemma_cell_text(g, ts, dt, k - 1, y);
        let before = row_text(g, y, k - 1);
        let c = cell_text(g, at(k - 1, y));
        assert(row_text(g, y, k) == before + c);
        assert forall|x: int| 0 <= x < k && x < g.wid implies {
            &&& #[trigger] row_text(g, y, k)[2 * x] == cell_text(g, at(x, y))[0]
            &&& row_text(g, y, k)[2 * x + 1] == cell_text(g, at(x, y))[1]
        } by {
            if x < k - 1 {
                assert(row_text(g, y, k - 1)[2 * x] == cell_text(g, at(x, y))[0]);
            }
        }
    }
}

/// The rows of a grid, top row first, covering the points from 0 up to `cols`.
pub open spec fn row_texts(g: GridView, k: int, cols: int) -> Seq<Seq<char>> {
    Seq::new(k as nat, |i: int| row_text(g, g.hgt - 1 - i, cols))
}

pub proof fn lemma_rows_text_terminated(g: GridView, k: int, cols: int)
    requires
        0 <= k,
    ensures
        rows_text(g, k, cols) == terminated(row_texts(g, k, cols)),
    decreases k,
{
    if k > 0 {
        lemma_rows_text_terminated(g, k - 1, cols);
        assert(row_texts(g, k, cols).drop_last() =~= row_texts(g, k - 1, cols));
    } else {
        assert(row_texts(g, k, cols).len() == 0);
    }
}

/// A row of a reloadable grid holds no line feed and does not end with a carriage return.
proof fn lemma_row_plain(g: GridView, ts: Map<(char, Color), BanditObj>, dt: Tile, y: int)
    requires
        reloadable(g, ts, dt),
        0 <= y < g.hgt,
    ensures
        plain_line(row_text(g, y, g.wid + 1)),
{
    let r = row_text(g, y, g.wid + 1);
    lemma_row_text(g, ts, dt, y, g.wid + 1);
    assert forall|k: int| 0 <= k < r.len() implies r[k] != '\n' by {
        let x = k / 2;
        lemma_cell_text(g, ts, dt, x, y);
        if k % 2 == 0 {
            assert(r[2 * x] == cell_text(g, at(x, y))[0]);
        } else {
            assert(k == 2 * x + 1);
            assert(r[2 * x] == cell_text(g, at(x, y))[0]);
        }
    }
    if r.len() > 0 {
        let x = g.wid - 1;
        lemma_cell_text(g, ts, dt, x, y);
        assert(r[2 * x] == cell_text(g, at(x, y))[0]);
        assert(r.last() == r[2 * x + 1]);
    }
}

/// The rows that the text of a reloadable grid reads as, bottom row first, are the grid's rows.
proof fn lemma_text_rows(g: GridView, ts: Map<(char, Color), BanditObj>, dt: Tile)
    requires
        reloadable(g, ts, dt),
    ensures
        spec_rows(rows_text(g, g.hgt as int, g.wid + 1)) == Seq::new(g.hgt as nat, |y: int| row_text(g, y, g.wid + 1)),
{
    let h = g.hgt as int;
    let cols = g.wid + 1;
    let ls = row_texts(g, h, cols);
    lemma_rows_text_terminated(g, h, cols);
    assert forall|i: int| 0 <= i < ls.len() implies plain_line(#[trigger] ls[i]) by {
        lemma_row_plain(g, ts, dt, h - 1 - i);
    }
    lemma_lines_terminated(ls);
    assert(spec_rows(rows_text(g, h, cols)) =~= Seq::new(g.hgt as nat, |y: int| row_text(g, y, cols)));
}

/// The key of what a grid holds at a point: its entity's, or else its tile's current look's.
pub open spec fn key_at(g: GridView, p: Point) -> (char, Color) {
    if g.ents.contains_key(p) {
        spec_key(g.ents[p].ch)
    } else {
        spec_key(g.tiles[p].spec_cur_state().ch)
    }
}

/// Reading cell `x` of a row of a reloadable grid finds the key of what the grid holds there,
/// an entity exactly where the grid has one, and an upper case letter exactly for an entity
/// that cannot be pushed.
proof fn lemma_cell_key(g: GridView, ts: Map<(char, Color), BanditObj>, dt: Tile, x: int, y: int)
    requires
        reloadable(g, ts, dt),
        0 <= y < g.hgt,
        0 <= x < g.wid,
    ensures
        cell_clr(row_text(g, y, g.wid + 1), x) is Some,
        cell_key(row_text(g, y, g.wid + 1), x) == key_at(g, at(x, y)),
        ts.contains_key(key_at(g, at(x, y))),
        cell_is_en(row_text(g, y, g.wid + 1), ts, x) <==> g.ents.contains_key(at(x, y)),
        is_upper(row_text(g, y, g.wid + 1)[2 * x]) <==> g.ents.contains_key(at(x, y)) && !g.ents[at(x, y)].movable,
{
    let r = row_text(g, y, g.wid + 1);
    let p = at(x, y);
    lemma_row_text(g, ts, dt, y, g.wid + 1);
    assert(r[2 * x] == cell_text(g, p)[0]);
    assert(g.tiles.contains_key(p));
    if g.ents.contains_key(p) {
        let e = g.ents[p];
        lemma_letter(e.ch.fg->0);
    } else {
        let t = g.tiles[p];
        lemma_letter(t.spec_cur_state().ch.fg->0);
    }
}

/// In a row of a reloadable grid, an entity is never made immovable by what comes before it.
proof fn lemma_movable_before(g: GridView, ts: Map<(char, Color), BanditObj>, dt: Tile, y: int, c: int)
    requires
        reloadable(g, ts, dt),
        0 <= y < g.hgt,
        0 <= c <= g.wid,
    ensures
        movable_before(row_text(g, y, g.wid + 1), ts, c),
    decreases c,
{
    if c > 0 {
        lemma_cell_key(g, ts, dt, c - 1, y);
        lemma_movable_before(g, ts, dt, y, c - 1);
    }
}

proof fn lemma_rows_width(rows: Seq<Seq<char>>, w: int, k: int)
    requires
        0 <= w,
        0 <= k <= rows.len(),
        forall|y: int| 0 <= y < rows.len() ==> (#[trigger] rows[y]).len() == 2 * w,
    ensures
        rows_width(rows, k) == if k == 0 { 0 } else { w },
    decreases k,
{
    if k > 0 {
        lemma_rows_width(rows, w, k - 1);
        assert(rows[k - 1].len() == 2 * w);
        assert((2 * w + 1) / 2 == w);
    }
}

/// The text of a reloadable grid reads: every colour letter names a colour and every cell's
/// object is in the tile set; and it has a player exactly when the grid has one.
pub proof fn lemma_grid_text_reads(g: GridView, ts: Map<(char, Color), BanditObj>, dt: Tile)
    requires
        reloadable(g, ts, dt),
    ensures
        rows_ok(spec_rows(rows_text(g, g.hgt as int, g.wid + 1)), ts),
        has_player(spec_rows(rows_text(g, g.hgt as int, g.wid + 1)), ts)
            <==> exists|p: Point| #[trigger] g.ents.contains_key(p) && g.ents[p].tp is Player,
{
    let rows = spec_rows(rows_text(g, g.hgt as int, g.wid + 1));
    lemma_text_rows(g, ts, dt);
    assert forall|y: int| 0 <= y < rows.len() implies row_ok(#[trigger] rows[y], ts) by {
        let r = rows[y];
        lemma_row_text(g, ts, dt, y, g.wid + 1);
        assert forall|x: int| 0 <= x && 2 * x < r.len() implies (#[trigger] cell_clr(r, x)) is Some by {
            lemma_cell_key(g, ts, dt, x, y);
        }
        assert forall|x: int| 0 <= x && 2 * x + 1 < r.len() implies ts.contains_key(#[trigger] cell_key(r, x)) by {
            lemma_cell_key(g, ts, dt, x, y);
        }
    }
    if has_player(rows, ts) {
        let p = choose|p: Point| player_cell(rows, ts, p);
        lemma_row_text(g, ts, dt, p.y as int, g.wid + 1);
        lemma_cell_key(g, ts, dt, p.x as int, p.y as int);
        assert(at(p.x as int, p.y as int) == p);
        assert(g.ents.contains_key(p) && g.ents[p].tp is Player);
    }
    if exists|p: Point| #[trigger] g.ents.contains_key(p) && g.ents[p].tp is Player {
        let p = choose|p: Point| #[trigger] g.ents.contains_key(p) && g.ents[p].tp is Player;
        assert(g.tiles.contains_key(p));
        lemma_row_text(g, ts, dt, p.y as int, g.wid + 1);
        lemma_cell_key(g, ts, dt, p.x as int, p.y as int);
        assert(at(p.x as int, p.y as int) == p);
        assert(player_cell(rows, ts, p));
    }
}

/// Reading back the text of a reloadable grid, its rows from 0 up to its width, gives the
/// grid again: the same size, and tiles and entities at the same points that agree in every
/// field.
pub proof fn lemma_grid_reads_back(g: GridView, ts: Map<(char, Color), BanditObj>, dt: Tile, g2: GridView)
    requires
        reloadable(g, ts, dt),
        grid_of_text(g2, rows_text(g, g.hgt as int, g.wid + 1), ts, dt),
    ensures
        g2.same_as(g),
{
    let w = g.wid as int;
    let h = g.hgt as int;
    let rows = spec_rows(rows_text(g, h, w + 1));
    lemma_text_rows(g, ts, dt);
    assert forall|y: int| 0 <= y < rows.len() implies (#[trigger] rows[y]).len() == 2 * w by {
        lemma_row_text(g, ts, dt, y, w + 1);
    }
    lemma_rows_width(rows, w, h);
    assert forall|p: Point| #[trigger] is_cell(rows, p) <==> g.tiles.contains_key(p) by {
        if 0 <= p.y < h {
            assert(rows[p.y as int].len() == 2 * w);
        }
    }
    assert forall|p: Point| #[trigger] g.tiles.contains_key(p) implies {
        &&& cell_placed(g2, rows[p.y as int], ts, dt, p)
        &&& cell_key(rows[p.y as int], p.x as int) == key_at(g, p)
        &&& (cell_is_en(rows[p.y as int], ts, p.x as int) <==> g.ents.contains_key(p))
        &&& (g.ents.contains_key(p) ==> movable_at(rows[p.y as int], ts, p.x as int) == g.ents[p].movable)
    } by {
        assert(is_cell(rows, p));
        assert(done_cell(rows, p, h, 0));
        lemma_cell_key(g, ts, dt, p.x as int, p.y as int);
        lemma_movable_before(g, ts, dt, p.y as int, p.x as int);
        assert(at(p.x as int, p.y as int) == p);
    }
    assert(g2.tiles.dom() =~= g.tiles.dom()) by {
        assert forall|p: Point| g2.tiles.contains_key(p) implies g.tiles.contains_key(p) by {
            assert(done_cell(rows, p, h, 0));
        }
    }
    assert(g2.ents.dom() =~= g.ents.dom()) by {
        assert forall|p: Point| g2.ents.contains_key(p) implies g.ents.contains_key(p) by {
            assert(done_cell(rows, p, h, 0));
            assert(g.tiles.contains_key(p));
        }
        assert forall|p: Point| g.ents.contains_key(p) implies g2.ents.contains_key(p) by {
            assert(g.tiles.contains_key(p));
        }
    }
    assert forall|p: Point| #[trigger] g2.tiles.contains_key(p) implies g2.tiles[p].same_as(g.tiles[p]) by {
        assert(g.tiles.contains_key(p));
    }
    assert forall|p: Point| #[trigger] g2.ents.contains_key(p) implies g2.ents[p].same_as(g.ents[p]) by {
        assert(g.tiles.contains_key(p));
        assert(g.ents.contains_key(p));
    }
    assert(g2.effects =~= g.effects);
}

/// The text a puzzle with a reloadable grid writes loads exactly when the grid has a player.
pub proof fn lemma_puzzle_text_loads(p: Puzzle, ts: Map<(char, Color), BanditObj>, dt: Tile)
    requires
        reloadable(p.data@, ts, dt),
    ensures
        pzl_text_ok(p.spec_file_repr(), ts)
            <==> exists|q: Point| #[trigger] p.data@.ents.contains_key(q) && p.data@.ents[q].tp is Player,
{
    lemma_grid_text_reads(p.data@, ts, dt);
}

/// Loading the text a puzzle with a reloadable grid writes, under any name, gives the same
/// grid, with the player placed where the grid has a player.
pub proof fn lemma_puzzle_reads_back(p: Puzzle, ts: Map<(char, Color), BanditObj>, dt: Tile, name: Seq<char>, q: Puzzle)
    requires
        reloadable(p.data@, ts, dt),
        q.loaded(p.spec_file_repr(), ts, dt, name),
    ensures
        q.data@.same_as(p.data@),
        p.data@.ents.contains_key(q.pl_pos),
        p.data@.ents[q.pl_pos].tp is Player,
{
    let g = p.data@;
    lemma_grid_reads_back(g, ts, dt, q.data@);
    let rows = spec_rows(p.spec_file_repr());
    lemma_text_rows(g, ts, dt);
    let pl = q.pl_pos;
    assert(done_cell(rows, pl, rows.len() as int, 0));
    assert(player_cell(rows, ts, pl));
    lemma_row_text(g, ts, dt, pl.y as int, g.wid + 1);
    assert(rows[pl.y as int].len() == 2 * g.wid);
    lemma_cell_key(g, ts, dt, pl.x as int, pl.y as int);
    assert(at(pl.x as int, pl.y as int) == pl);
}

/// The rows of a reloadable grid are the same whether they cover the points up to its width or
/// one further: there is nothing beyond its width.
proof fn lemma_rows_to_width(g: GridView, ts: Map<(char, Color), BanditObj>, dt: Tile)
    requires
        reloadable(g, ts, dt),
    ensures
        row_texts(g, g.hgt as int, g.wid as int) == row_texts(g, g.hgt as int, g.wid + 1),
        rows_text(g, g.hgt as int, g.wid as int) == rows_text(g, g.hgt as int, g.wid + 1),
{
    let h = g.hgt as int;
    let w = g.wid as int;
    assert forall|y: int| 0 <= y < h implies #[trigger] row_text(g, y, w) == row_text(g, y, w + 1) by {
        lemma_cell_text(g, ts, dt, w, y);
        assert(row_text(g, y, w + 1) == row_text(g, y, w) + cell_text(g, at(w, y)));
        assert(row_text(g, y, w + 1) =~= row_text(g, y, w));
    }
    assert forall|i: int| 0 <= i < h implies #[trigger] row_texts(g, h, w)[i] == row_texts(g, h, w + 1)[i] by {
        assert(row_text(g, h - 1 - i, w) == row_text(g, h - 1 - i, w + 1));
    }
    assert(row_texts(g, h, w) =~= row_texts(g, h, w + 1));
    lemma_rows_text_terminated(g, h, w);
    lemma_rows_text_terminated(g, h, w + 1);
}

/// A puzzle that reads back from the pack text it is written to: its name is a plain line,
/// its grid reads back and is at least one point wide, and it has a player.
pub open spec fn puzzle_reloadable(p: Puzzle, ts: Map<(char, Color), BanditObj>, dt: Tile) -> bool {
    &&& plain_line(p.name@)
    &&& reloadable(p.data@, ts, dt)
    &&& p.data@.wid > 0
    &&& exists|q: Point| #[trigger] p.data@.ents.contains_key(q) && p.data@.ents[q].tp is Player
}

/// A pack that reads back from the text it is written to: its name is a plain line without
/// surrounding white space, and every puzzle reads back.
pub open spec fn pack_reloadable(pack: PuzzlePack, ts: Map<(char, Color), BanditObj>, dt: Tile) -> bool {
    &&& plain_line(pack.name@)
    &&& spec_trim(pack.name@) == pack.name@
    &&& forall|k: int| 0 <= k < pack.pzls@.len() ==> puzzle_reloadable(#[trigger] pack.pzls@[k], ts, dt)
}

/// The rows of a puzzle that reads back: each is a plain line and none is empty.
proof fn lemma_block_rows(p: Puzzle, ts: Map<(char, Color), BanditObj>, dt: Tile)
    requires
        puzzle_reloadable(p, ts, dt),
    ensures
        forall|i: int| 0 <= i < p.data@.hgt ==> plain_line(#[trigger] row_texts(p.data@, p.data@.hgt as int, p.data@.wid as int)[i])
            && row_texts(p.data@, p.data@.hgt as int, p.data@.wid as int)[i].len() > 0,
        row_texts(p.data@, p.data@.hgt as int, p.data@.wid as int).len() == p.data@.hgt,
{
    let g = p.data@;
    let h = g.hgt as int;
    lemma_rows_to_width(g, ts, dt);
    assert forall|i: int| 0 <= i < h implies plain_line(#[trigger] row_texts(g, h, g.wid as int)[i])
        && row_texts(g, h, g.wid as int)[i].len() > 0 by {
        lemma_row_plain(g, ts, dt, h - 1 - i);
        lemma_row_text(g, ts, dt, h - 1 - i, g.wid + 1);
        assert(row_texts(g, h, g.wid as int)[i] == row_texts(g, h, g.wid + 1)[i]);
    }
}

proof fn lemma_pzls_lines_cons(pzls: Seq<Puzzle>)
    requires
        pzls.len() > 0,
    ensures
        pzls_lines(pzls) == block_lines(pzls[0]) + pzls_lines(pzls.drop_first()),
    decreases pzls.len(),
{
    if pzls.len() == 1 {
        assert(pzls.drop_last() =~= Seq::<Puzzle>::empty());
        assert(pzls.drop_first() =~= Seq::<Puzzle>::empty());
        assert(pzls_lines(pzls) =~= block_lines(pzls[0]) + pzls_lines(pzls.drop_first()));
    } else {
        lemma_pzls_lines_cons(pzls.drop_last());
        assert(pzls.drop_last().drop_first() =~= pzls.drop_first().drop_last());
        assert(pzls.drop_first().last() == pzls.last());
        assert(pzls.drop_last()[0] == pzls[0]);
        assert(pzls_lines(pzls) =~= block_lines(pzls[0]) + pzls_lines(pzls.drop_first()));
    }
}

/// Every line the puzzles of a reloadable pack are written as is a plain line.
proof fn lemma_pzls_lines_plain(pzls: Seq<Puzzle>, ts: Map<(char, Color), BanditObj>, dt: Tile)
    requires
        forall|k: int| 0 <= k < pzls.len() ==> puzzle_reloadable(#[trigger] pzls[k], ts, dt),
    ensures
        forall|i: int| 0 <= i < pzls_lines(pzls).len() ==> plain_line(#[trigger] pzls_lines(pzls)[i]),
    decreases pzls.len(),
{
    if pzls.len() > 0 {
        let front = pzls.drop_last();
        assert forall|k: int| 0 <= k < front.len() implies puzzle_reloadable(#[trigger] front[k], ts, dt) by {
            assert(front[k] == pzls[k]);
        }
        lemma_pzls_lines_plain(front, ts, dt);
        let p = pzls.last();
        assert(puzzle_reloadable(pzls[pzls.len() - 1], ts, dt));
        lemma_block_rows(p, ts, dt);
        let b = block_lines(p);
        let rows = row_texts(p.data@, p.data@.hgt as int, p.data@.wid as int);
        assert forall|i: int| 0 <= i < b.len() implies plain_line(#[trigger] b[i]) by {
            if 1 <= i < b.len() - 1 {
                assert(b[i] == rows[i - 1]);
            }
        }
        let all = pzls_lines(pzls);
        assert forall|i: int| 0 <= i < all.len() implies plain_line(#[trigger] all[i]) by {
            if i < pzls_lines(front).len() {
                assert(all[i] == pzls_lines(front)[i]);
            } else {
                assert(all[i] == b[i - pzls_lines(front).len()]);
            }
        }
    }
}

/// Reading the rows of a puzzle, then an empty line, ends the block with the rows' text.
proof fn lemma_blocks_rows(ls: Seq<Seq<char>>, j: int, nm: Seq<char>, data: Seq<char>, rows: Seq<Seq<char>>)
    requires
        0 <= j,
        j + rows.len() < ls.len(),
        forall|r: int| 0 <= r < rows.len() ==> ls[j + r] == #[trigger] rows[r] && rows[r].len() > 0,
        ls[j + rows.len()].len() == 0,
    ensures
        blocks_from(ls, j, Some(nm), data) == seq![(nm, data + terminated(rows))] + blocks_from(ls, j + rows.len() + 1, None, seq![]),
    decreases rows.len(),
{
    if rows.len() == 0 {
        assert(data + terminated(rows) =~= data);
    } else {
        let rest = rows.drop_first();
        assert forall|r: int| 0 <= r < rest.len() implies ls[(j + 1) + r] == #[trigger] rest[r] && rest[r].len() > 0 by {
            assert(rest[r] == rows[r + 1]);
        }
        assert(ls[j] == rows[0]);
        lemma_blocks_rows(ls, j + 1, nm, data + ls[j].push('\n'), rest);
        let one = seq![rows[0]];
        lemma_terminated_append(one, rest);
        assert(one + rest =~= rows);
        assert(one.drop_last() =~= Seq::<Seq<char>>::empty());
        assert(terminated(Seq::<Seq<char>>::empty()) =~= Seq::<char>::empty());
        assert(terminated(one) =~= Seq::<char>::empty() + one.last() + seq!['\n']);
        assert(data + ls[j].push('\n') + terminated(rest) =~= data + terminated(rows));
    }
}

/// The blocks read from the lines of the puzzles of a reloadable pack are their names and
/// texts.
proof fn lemma_blocks_of(ls: Seq<Seq<char>>, i: int, pzls: Seq<Puzzle>, ts: Map<(char, Color), BanditObj>, dt: Tile)
    requires
        0 <= i <= ls.len(),
        ls.skip(i) == pzls_lines(pzls),
        forall|k: int| 0 <= k < pzls.len() ==> puzzle_reloadable(#[trigger] pzls[k], ts, dt),
    ensures
        blocks_from(ls, i, None, seq![]) == Seq::new(pzls.len(), |k: int|
            (pzls[k].name@, rows_text(pzls[k].data@, pzls[k].data@.hgt as int, pzls[k].data@.wid as int))),
    decreases pzls.len(),
{
    let target = Seq::new(pzls.len(), |k: int|
        (pzls[k].name@, rows_text(pzls[k].data@, pzls[k].data@.hgt as int, pzls[k].data@.wid as int)));
    if pzls.len() == 0 {
        assert(ls.skip(i).len() == 0);
        assert(blocks_from(ls, i, None, seq![]) =~= target);
    } else {
        lemma_pzls_lines_cons(pzls);
        let p = pzls[0];
        let rest = pzls.drop_first();
        let g = p.data@;
        let rows = row_texts(g, g.hgt as int, g.wid as int);
        lemma_block_rows(p, ts, dt);
        let b = block_lines(p);
        let n = b.len() as int;
        assert(n == rows.len() + 2);
        assert(pzls_lines(pzls) == b + pzls_lines(rest));
        assert(ls.skip(i).len() == ls.len() - i);
        assert(ls.len() - i >= n);
        assert forall|m: int| 0 <= m < n implies ls[i + m] == #[trigger] b[m] by {
            assert(ls.skip(i)[m] == ls[i + m]);
            assert((b + pzls_lines(rest))[m] == b[m]);
        }
        assert(ls[i] == p.name@) by {
            assert(ls[i + 0] == b[0]);
        }
        assert forall|r: int| 0 <= r < rows.len() implies ls[(i + 1) + r] == #[trigger] rows[r] && rows[r].len() > 0 by {
            assert(ls[i + (r + 1)] == b[r + 1]);
        }
        assert(ls[(i + 1) + rows.len()] == b[n - 1]);
        lemma_blocks_rows(ls, i + 1, p.name@, seq![], rows);
        lemma_rows_text_terminated(g, g.hgt as int, g.wid as int);
        assert(Seq::<char>::empty() + terminated(rows) =~= terminated(rows));
        assert(ls.skip(i + n) =~= pzls_lines(rest)) by {
            assert(ls.skip(i + n).len() == pzls_lines(rest).len());
            assert forall|m: int| 0 <= m < ls.skip(i + n).len() implies ls.skip(i + n)[m] == pzls_lines(rest)[m] by {
                assert(ls.skip(i)[n + m] == ls[i + n + m]);
                assert((b + pzls_lines(rest))[n + m] == pzls_lines(rest)[m]);
            }
        }
        assert forall|k: int| 0 <= k < rest.len() implies puzzle_reloadable(#[trigger] rest[k], ts, dt) by {
            assert(rest[k] == pzls[k + 1]);
        }
        lemma_blocks_of(ls, i + n, rest, ts, dt);
        assert(i + 1 + rows.len() + 1 == i + n);
        assert(blocks_from(ls, i, None, seq![]) == blocks_from(ls, i + 1, Some(p.name@), seq![]));
        assert(blocks_from(ls, i, None, seq![]) =~= target);
    }
}

/// The lines, name and blocks of the text a reloadable pack is written as.
proof fn lemma_pack_text_parts(pack: PuzzlePack, ts: Map<(char, Color), BanditObj>, dt: Tile)
    requires
        pack_reloadable(pack, ts, dt),
    ensures
        pack_name(spec_pack_text(pack.name@, pack.pzls@)) == pack.name@,
        pack_blocks(spec_pack_text(pack.name@, pack.pzls@)).len() == pack.pzls@.len(),
        forall|k: int| 0 <= k < pack.pzls@.len() ==> #[trigger] pack_blocks(spec_pack_text(pack.name@, pack.pzls@))[k]
            == (pack.pzls@[k].name@, pack.pzls@[k].spec_file_repr()),
{
    let pzls = pack.pzls@;
    let l = seq![pack.name@] + pzls_lines(pzls);
    lemma_pzls_lines_plain(pzls, ts, dt);
    assert forall|i: int| 0 <= i < l.len() implies plain_line(#[trigger] l[i]) by {
        if i > 0 {
            assert(l[i] == pzls_lines(pzls)[i - 1]);
        }
    }
    lemma_lines_terminated(l);
    assert(spec_lines(spec_pack_text(pack.name@, pzls)) == l);
    assert(l.skip(1) =~= pzls_lines(pzls));
    lemma_blocks_of(l, 1, pzls, ts, dt);
    assert forall|k: int| 0 <= k < pzls.len() implies #[trigger] pack_blocks(spec_pack_text(pack.name@, pzls))[k]
        == (pzls[k].name@, pzls[k].spec_file_repr()) by {
        assert(puzzle_reloadable(pzls[k], ts, dt));
        lemma_rows_to_width(pzls[k].data@, ts, dt);
    }
}

/// The text a reloadable pack is written as loads: it names the pack, it holds as many
/// puzzles, and every puzzle's text reads.
pub proof fn lemma_pack_text_loads(pack: PuzzlePack, ts: Map<(char, Color), BanditObj>, dt: Tile)
    requires
        pack_reloadable(pack, ts, dt),
    ensures
        pack_name(spec_pack_text(pack.name@, pack.pzls@)) == pack.name@,
        pack_blocks(spec_pack_text(pack.name@, pack.pzls@)).len() == pack.pzls@.len(),
        forall|k: int| 0 <= k < pack.pzls@.len() ==> pzl_text_ok(#[trigger] pack_blocks(spec_pack_text(pack.name@, pack.pzls@))[k].1, ts),
{
    lemma_pack_text_parts(pack, ts, dt);
    assert forall|k: int| 0 <= k < pack.pzls@.len() implies pzl_text_ok(#[trigger] pack_blocks(spec_pack_text(pack.name@, pack.pzls@))[k].1, ts) by {
        let p = pack.pzls@[k];
        assert(puzzle_reloadable(p, ts, dt));
        lemma_puzzle_text_loads(p, ts, dt);
    }
}

/// Saving a pack and loading it back gives the pack again: the same name, as many puzzles, and
/// each puzzle with the same name, the same grid (size, and what stands at every point), and
/// the player placed where its grid has a player.
pub proof fn lemma_pack_reads_back(pack: PuzzlePack, ts: Map<(char, Color), BanditObj>, dt: Tile, q: PuzzlePack)
    requires
        pack_reloadable(pack, ts, dt),
        pack_loaded(q, spec_pack_text(pack.name@, pack.pzls@), ts, dt),
    ensures
        q.name@ == pack.name@,
        q.pzls@.len() == pack.pzls@.len(),
        forall|k: int| 0 <= k < q.pzls@.len() ==> {
            &&& (#[trigger] q.pzls@[k]).name@ == pack.pzls@[k].name@
            &&& q.pzls@[k].data@.same_as(pack.pzls@[k].data@)
            &&& pack.pzls@[k].data@.ents.contains_key(q.pzls@[k].pl_pos)
            &&& pack.pzls@[k].data@.ents[q.pzls@[k].pl_pos].tp is Player
        },
{
    let text = spec_pack_text(pack.name@, pack.pzls@);
    lemma_pack_text_parts(pack, ts, dt);
    assert forall|k: int| 0 <= k < q.pzls@.len() implies {
        &&& (#[trigger] q.pzls@[k]).name@ == pack.pzls@[k].name@
        &&& q.pzls@[k].data@.same_as(pack.pzls@[k].data@)
        &&& pack.pzls@[k].data@.ents.contains_key(q.pzls@[k].pl_pos)
        &&& pack.pzls@[k].data@.ents[q.pzls@[k].pl_pos].tp is Player
    } by {
        let p = pack.pzls@[k];
        assert(puzzle_reloadable(p, ts, dt));
        assert(pack_blocks(text)[k] == (p.name@, p.spec_file_repr()));
        assert(q.pzls@[k].loaded(p.spec_file_repr(), ts, dt, p.name@));
        lemma_puzzle_reads_back(p, ts, dt, p.name@, q.pzls@[k]);
    }
}

} // verus!
