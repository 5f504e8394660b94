//! Loading and handling puzzles.

use vstd::prelude::*;
use vstd::string::StringExecFns;
use std::collections::HashSet;

pub mod ts;
pub mod reread;
use crate::beam::Clr;
use crate::style::{Color, StyleCh};
use crate::point::Point;
use crate::grid::{Grid, GridView};
use crate::entity::Ent;
use crate::Tile;
use crate::text::{spec_ascii_lower, ascii_lower, spec_lines, lines, chars_of, lemma_lines_bounds, spec_trim, trim,
    string_from_chars, slice_chars, append_chars, pieces_size, lemma_lines_size};
use crate::digest::{text_id, spec_text_id};
use ts::{BanditObj, TileSet, spec_key};
use crate::{Game, GameView};
use crate::beam::Inputs;

verus! {

/// An error when writing/loading a puzzle.
#[derive(Clone, Copy, Debug, PartialEq, Eq, Structural)]
pub enum PzlIOErr {
    InvalidFile,
    InvalidFormat,
    FileBusy,
    CantAccess,
}

impl Default for PzlIOErr {
    fn default() -> (e: Self)
        ensures
            e == PzlIOErr::InvalidFormat,
    {
        PzlIOErr::InvalidFormat
    }
}

impl PzlIOErr {
    /// The error standing for a failed conversion.
    pub fn from_unit(_value: ()) -> (e: Self)
        ensures
            e == PzlIOErr::InvalidFormat,
    {
        PzlIOErr::InvalidFormat
    }

    /// The message shown to the user for this error.
    pub fn message(&self) -> (m: &'static str)
        ensures
            m@ == match *self {
                PzlIOErr::InvalidFile => "Invalid File Type"@,
                PzlIOErr::InvalidFormat => "File is Corrupt"@,
                PzlIOErr::FileBusy => "File is Busy"@,
                PzlIOErr::CantAccess => "Can't Access File"@,
            },
    {
        match *self {
            PzlIOErr::InvalidFile => "Invalid File Type",
            PzlIOErr::InvalidFormat => "File is Corrupt",
            PzlIOErr::FileBusy => "File is Busy",
            PzlIOErr::CantAccess => "Can't Access File",
        }
    }
}

/// The kind of a failed file operation, as far as puzzle files care.
#[derive(Clone, Copy, Debug, PartialEq, Eq, Structural)]
pub enum IoKind {
    InvalidFilename,
    NotFound,
    PermissionDenied,
    InvalidData,
    IsADirectory,
    Other,
}

impl PzlIOErr {
    /// The error a failed file operation of the given kind stands for.
    pub fn from_io_kind(kind: IoKind) -> (e: Self)
        ensures
            e == match kind {
                IoKind::InvalidFilename => PzlIOErr::InvalidFile,
                IoKind::NotFound => PzlIOErr::CantAccess,
                IoKind::PermissionDenied => PzlIOErr::CantAccess,
                IoKind::InvalidData => PzlIOErr::InvalidFormat,
                IoKind::IsADirectory => PzlIOErr::InvalidFile,
                IoKind::Other => PzlIOErr::CantAccess,
            },
    {
        match kind {
            IoKind::InvalidFilename => PzlIOErr::InvalidFile,
            IoKind::NotFound => PzlIOErr::CantAccess,
            IoKind::PermissionDenied => PzlIOErr::CantAccess,
            IoKind::InvalidData => PzlIOErr::InvalidFormat,
            IoKind::IsADirectory => PzlIOErr::InvalidFile,
            IoKind::Other => PzlIOErr::CantAccess,
        }
    }
}

/// The terminal colour named by a letter in puzzle files: the laser colour letters for the
/// plain colours, and `a`, `d`, `e`, `f`, `h`, `i`, `j` for the dark ones and grey.
pub open spec fn spec_map_ch(ch: char) -> Option<Color> {
    if Clr::spec_from_char(ch) is Some {
        Some(Clr::spec_from_char(ch)->0.spec_to_color())
    } else if ch == 'a' {
        Some(Color::DarkRed)
    } else if ch == 'd' {
        Some(Color::DarkYellow)
    } else if ch == 'e' {
        Some(Color::DarkGreen)
    } else if ch == 'f' {
        Some(Color::DarkCyan)
    } else if ch == 'h' {
        Some(Color::DarkBlue)
    } else if ch == 'i' {
        Some(Color::DarkMagenta)
    } else if ch == 'j' {
        Some(Color::Grey)
    } else {
        None
    }
}

/// The letter naming a terminal colour in puzzle files, if it has one.
pub open spec fn spec_map_clr(clr: Color) -> Option<char> {
    if Clr::spec_from_color(clr) is Some {
        Some(Clr::spec_from_color(clr)->0.spec_to_char())
    } else {
        match clr {
            Color::DarkRed => Some('a'),
            Color::DarkYellow => Some('d'),
            Color::DarkGreen => Some('e'),
            Color::DarkCyan => Some('f'),
            Color::DarkBlue => Some('h'),
            Color::DarkMagenta => Some('i'),
            Color::Grey => Some('j'),
            _ => None,
        }
    }
}

/// Return the colour associated with the character. Used in puzzle loading.
pub fn map_ch(ch: char) -> (r: Result<Color, PzlIOErr>)
    ensures
        match spec_map_ch(ch) {
            Some(c) => r == Ok::<Color, PzlIOErr>(c),
            None => r == Err::<Color, PzlIOErr>(PzlIOErr::InvalidFormat),
        },
{
    if let Ok(clr) = Clr::from_char(ch) {
        return Ok(clr.to_color());
    }
    if ch == 'a' {
        Ok(Color::DarkRed)
    } else if ch == 'd' {
        Ok(Color::DarkYellow)
    } else if ch == 'e' {
        Ok(Color::DarkGreen)
    } else if ch == 'f' {
        Ok(Color::DarkCyan)
    } else if ch == 'h' {
        Ok(Color::DarkBlue)
    } else if ch == 'i' {
        Ok(Color::DarkMagenta)
    } else if ch == 'j' {
        Ok(Color::Grey)
    } else {
        Err(PzlIOErr::InvalidFormat)
    }
}

/// Returns the character associated with the colour.
pub fn map_clr(clr: Color) -> (r: Result<char, PzlIOErr>)
    ensures
        match spec_map_clr(clr) {
            Some(c) => r == Ok::<char, PzlIOErr>(c),
            None => r == Err::<char, PzlIOErr>(PzlIOErr::InvalidFormat),
        },
{
    if let Ok(ch) = Clr::from_color(clr) {
        return Ok(ch.to_char());
    }
    match clr {
        Color::DarkRed => Ok('a'),
        Color::DarkYellow => Ok('d'),
        Color::DarkGreen => Ok('e'),
        Color::DarkCyan => Ok('f'),
        Color::DarkBlue => Ok('h'),
        Color::DarkMagenta => Ok('i'),
        Color::Grey => Ok('j'),
        _ => Err(PzlIOErr::InvalidFormat),
    }
}

/// Writing a colour as a letter and reading the letter back gives the colour, and reading a
/// colour letter and writing the colour gives the letter.
pub proof fn lemma_colour_letters_roundtrip(clr: Color, ch: char)
    ensures
        spec_map_clr(clr) matches Some(c) ==> spec_map_ch(c) == Some(clr),
        spec_map_ch(ch) matches Some(c) ==> spec_map_clr(c) == Some(ch),
{
}


/// The rows of a puzzle text, bottom row first: its lines in reverse order.
pub open spec fn spec_rows(data: Seq<char>) -> Seq<Seq<char>> {
    let l = spec_lines(data);
    Seq::new(l.len(), |y: int| l[l.len() - 1 - y])
}

/// The colour given by the colour letter of cell `x` of a row, if the letter names one.
pub open spec fn cell_clr(row: Seq<char>, x: int) -> Option<Color> {
    spec_map_ch(spec_ascii_lower(row[2 * x]))
}

/// The key under which the object of cell `x` of a row is found in a tile set.
pub open spec fn cell_key(row: Seq<char>, x: int) -> (char, Color) {
    spec_key(StyleCh { content: row[2 * x + 1], fg: cell_clr(row, x), bg: None })
}

/// An upper case ASCII letter: marks an entity that cannot be pushed.
pub open spec fn is_upper(c: char) -> bool {
    'A' <= c && c <= 'Z'
}

/// Cell `x` of a row holds an entity.
pub open spec fn cell_is_en(row: Seq<char>, ts: Map<(char, Color), BanditObj>, x: int) -> bool {
    ts[cell_key(row, x)] is En
}

/// Whether the next entity of a row can be pushed, before the colour letter of cell `c` is
/// read: an upper case colour letter makes the next entity immovable, and placing an entity
/// makes the following ones movable again.
pub open spec fn movable_before(row: Seq<char>, ts: Map<(char, Color), BanditObj>, c: int) -> bool
    decreases c,
{
    if c <= 0 {
        true
    } else if cell_is_en(row, ts, c - 1) {
        true
    } else if is_upper(row[2 * (c - 1)]) {
        false
    } else {
        movable_before(row, ts, c - 1)
    }
}

/// Whether an entity placed in cell `c` of a row can be pushed.
pub open spec fn movable_at(row: Seq<char>, ts: Map<(char, Color), BanditObj>, c: int) -> bool {
    !is_upper(row[2 * c]) && movable_before(row, ts, c)
}

/// Every colour letter of a row names a colour and every cell's object is in the tile set.
pub open spec fn row_ok(row: Seq<char>, ts: Map<(char, Color), BanditObj>) -> bool {
    &&& forall|x: int| 0 <= x && 2 * x < row.len() ==> (#[trigger] cell_clr(row, x)) is Some
    &&& forall|x: int| 0 <= x && 2 * x + 1 < row.len() ==> ts.contains_key(#[trigger] cell_key(row, x))
}

/// Every row of a puzzle text reads.
pub open spec fn rows_ok(rows: Seq<Seq<char>>, ts: Map<(char, Color), BanditObj>) -> bool {
    forall|y: int| 0 <= y < rows.len() ==> row_ok(#[trigger] rows[y], ts)
}

/// The widest of the first `k` rows, counting cells (two characters each, the last possibly
/// a lone colour letter).
pub open spec fn rows_width(rows: Seq<Seq<char>>, k: int) -> nat
    decreases k,
{
    if k <= 0 {
        0
    } else {
        let w = ((rows[k - 1].len() + 1) / 2) as nat;
        let before = rows_width(rows, k - 1);
        if w > before { w } else { before }
    }
}

/// The point is a cell of the rows: a colour letter followed by an object character.
pub open spec fn is_cell(rows: Seq<Seq<char>>, p: Point) -> bool {
    0 <= p.y < rows.len() && 0 <= p.x && 2 * p.x + 1 < rows[p.y as int].len()
}

/// The point is a cell read before cell `c0` of row `y0`.
pub open spec fn done_cell(rows: Seq<Seq<char>>, p: Point, y0: int, c0: int) -> bool {
    is_cell(rows, p) && (p.y < y0 || (p.y == y0 && p.x < c0))
}

/// The cell is read before the other one: a lower row, or further left in the same row.
pub open spec fn read_before(p: Point, q: Point) -> bool {
    p.y < q.y || (p.y == q.y && p.x < q.x)
}

/// The grid holds at `p` what the cell of the row at `p` stands for: its tile; or its entity,
/// movable as the row says, on the default tile.
pub open spec fn cell_placed(g: GridView, row: Seq<char>, ts: Map<(char, Color), BanditObj>, default_tile: Tile, p: Point) -> bool {
    match ts[cell_key(row, p.x as int)] {
        BanditObj::Tile(t) => g.tiles.contains_key(p) && g.tiles[p].same_as(t) && !g.ents.contains_key(p),
        BanditObj::En(e) => {
            &&& g.ents.contains_key(p)
            &&& g.ents[p].same_as(Ent { movable: movable_at(row, ts, p.x as int), ..e })
            &&& g.tiles.contains_key(p)
            &&& g.tiles[p].same_as(default_tile)
        },
    }
}

/// The grid holds exactly the cells read before cell `c0` of row `y0`, and no effects.
pub open spec fn partial_grid(g: GridView, rows: Seq<Seq<char>>, ts: Map<(char, Color), BanditObj>, default_tile: Tile, y0: int, c0: int) -> bool {
    &&& forall|p: Point| #[trigger] done_cell(rows, p, y0, c0) ==> cell_placed(g, rows[p.y as int], ts, default_tile, p)
    &&& forall|p: Point| #[trigger] g.tiles.contains_key(p) ==> done_cell(rows, p, y0, c0)
    &&& forall|p: Point| #[trigger] g.ents.contains_key(p) ==> done_cell(rows, p, y0, c0)
    &&& g.effects.len() == 0
}

/// The grid holds exactly the cells of the rows, and no effects.
pub open spec fn grid_of_rows(g: GridView, rows: Seq<Seq<char>>, ts: Map<(char, Color), BanditObj>, default_tile: Tile) -> bool {
    partial_grid(g, rows, ts, default_tile, rows.len() as int, 0)
}

/// The cell holds the player.
pub open spec fn player_cell(rows: Seq<Seq<char>>, ts: Map<(char, Color), BanditObj>, p: Point) -> bool {
    &&& is_cell(rows, p)
    &&& ts[cell_key(rows[p.y as int], p.x as int)] is En
    &&& ts[cell_key(rows[p.y as int], p.x as int)]->En_0.tp is Player
}

/// The last player cell read before cell `c0` of row `y0`, if any.
pub open spec fn partial_player(pl: Option<Point>, rows: Seq<Seq<char>>, ts: Map<(char, Color), BanditObj>, y0: int, c0: int) -> bool {
    match pl {
        Some(p) => {
            &&& done_cell(rows, p, y0, c0)
            &&& player_cell(rows, ts, p)
            &&& forall|q: Point| #[trigger] done_cell(rows, q, y0, c0) && player_cell(rows, ts, q) ==> !read_before(p, q)
        },
        None => forall|q: Point| #[trigger] done_cell(rows, q, y0, c0) ==> !player_cell(rows, ts, q),
    }
}

/// The player cell read last, if any: the highest row's rightmost one.
pub open spec fn last_player(pl: Option<Point>, rows: Seq<Seq<char>>, ts: Map<(char, Color), BanditObj>) -> bool {
    partial_player(pl, rows, ts, rows.len() as int, 0)
}

/// Place the cells of row `y` into the grid. Fails when the row does not read.
fn place_row(
    map: &mut Grid,
    pl: &mut Option<Point>,
    row: &Vec<char>,
    y: usize,
    tile_set: &TileSet,
    default_tile: &Tile,
    Ghost(rows): Ghost<Seq<Seq<char>>>,
) -> (r: Result<(), PzlIOErr>)
    requires
        y < rows.len() <= 1_000_000_000,
        row@ == rows[y as int],
        row@.len() < 1_000_000_000,
        default_tile.wf(),
        partial_grid(old(map)@, rows, tile_set@, *default_tile, y as int, 0),
        partial_player(*old(pl), rows, tile_set@, y as int, 0),
    ensures
        r is Ok <==> row_ok(rows[y as int], tile_set@),
        r is Err ==> r == Err::<(), PzlIOErr>(PzlIOErr::InvalidFormat),
        r is Ok ==> partial_grid(final(map)@, rows, tile_set@, *default_tile, y + 1, 0),
        r is Ok ==> partial_player(*final(pl), rows, tile_set@, y + 1, 0),
        final(map)@.wid == old(map)@.wid,
        final(map)@.hgt == old(map)@.hgt,
{
    let ghost ts = tile_set@;
    let ghost rw = row@;
    let len = row.len();
    let mut clr = Color::Black;
    let mut movable = true;
    let mut i: usize = 0;
    while i < len
        invariant
            i <= len == rw.len() < 1_000_000_000,
            y < rows.len() <= 1_000_000_000,
            rw == rows[y as int],
            row@ == rw,
            ts == tile_set@,
            default_tile.wf(),
            map@.wid == old(map)@.wid,
            map@.hgt == old(map)@.hgt,
            partial_grid(map@, rows, ts, *default_tile, y as int, (i / 2) as int),
            partial_player(*pl, rows, ts, y as int, (i / 2) as int),
            forall|x: int| 0 <= x && 2 * x < i ==> (#[trigger] cell_clr(rw, x)) is Some,
            forall|x: int| 0 <= x && 2 * x + 1 < i ==> ts.contains_key(#[trigger] cell_key(rw, x)),
            i % 2 == 1 ==> Some(clr) == cell_clr(rw, (i / 2) as int) && movable == movable_at(rw, ts, (i / 2) as int),
            i % 2 == 0 ==> movable == movable_before(rw, ts, (i / 2) as int),
        decreases len - i,
    {
        let c = i / 2;
        if i % 2 == 0 {
            let ch = row[i];
            match map_ch(ascii_lower(ch)) {
                Ok(cl) => {
                    clr = cl;
                },
                Err(_) => {
                    proof {
                        assert(cell_clr(rw, c as int) is None);
                    }
                    return Err(PzlIOErr::InvalidFormat);
                },
            }
            if 'A' <= ch && ch <= 'Z' {
                movable = false;
            }
            proof {
                assert forall|p: Point| #[trigger] done_cell(rows, p, y as int, ((i + 1) / 2) as int) implies done_cell(rows, p, y as int, (i / 2) as int) by {}
            }
        } else {
            let pos = Point::new(c as i32, y as i32);
            let ghost key = cell_key(rw, c as int);
            assert(spec_key(StyleCh { content: rw[i as int], fg: Some(clr), bg: None }) == key);
            match tile_set.map(StyleCh::with(row[i], clr)) {
                None => {
                    return Err(PzlIOErr::InvalidFormat);
                },
                Some(BanditObj::Tile(t)) => {
                    let ghost before = map@;
                    map.insert_tile(t.clone(), pos);
                    proof {
                        assert(!before.tiles.contains_key(pos));
                        assert(!before.ents.contains_key(pos));
                        lemma_advance_cell(before, map@, rows, ts, *default_tile, y as int, c as int);
                        lemma_advance_player(*pl, rows, ts, y as int, c as int);
                    }
                },
                Some(BanditObj::En(en)) => {
                    if en.is_player() {
                        *pl = Some(pos);
                    }
                    let mut e2 = en.clone();
                    e2.movable = movable;
                    movable = true;
                    let ghost before = map@;
                    map.insert_entity(e2, pos);
                    map.insert_tile(default_tile.clone(), pos);
                    proof {
                        assert(!before.tiles.contains_key(pos));
                        assert(!before.ents.contains_key(pos));
                        lemma_advance_cell(before, map@, rows, ts, *default_tile, y as int, c as int);
                        if en.tp is Player {
                            assert(done_cell(rows, pos, y as int, c + 1));
                            assert forall|q: Point| #[trigger] done_cell(rows, q, y as int, c + 1) && player_cell(rows, ts, q) implies !read_before(pos, q) by {}
                        } else {
                            lemma_advance_player(*pl, rows, ts, y as int, c as int);
                        }
                    }
                },
            }
        }
        i = i + 1;
    }
    proof {
        assert forall|p: Point| #[trigger] done_cell(rows, p, y + 1, 0) <==> done_cell(rows, p, y as int, (len / 2) as int) by {}
        assert forall|p: Point| #[trigger] done_cell(rows, p, y + 1, 0) implies cell_placed(map@, rows[p.y as int], ts, *default_tile, p) by {
            assert(done_cell(rows, p, y as int, (len / 2) as int));
        }
        match *pl {
            Some(p) => {
                assert(done_cell(rows, p, y as int, (len / 2) as int));
                assert forall|q: Point| #[trigger] done_cell(rows, q, y + 1, 0) && player_cell(rows, ts, q) implies !read_before(p, q) by {
                    assert(done_cell(rows, q, y as int, (len / 2) as int));
                }
            },
            None => {
                assert forall|q: Point| #[trigger] done_cell(rows, q, y + 1, 0) implies !player_cell(rows, ts, q) by {
                    assert(done_cell(rows, q, y as int, (len / 2) as int));
                }
            },
        }
    }
    Ok(())
}

/// Placing cell `c` of row `y` takes the grid from the cells before it to the cells up to it.
proof fn lemma_advance_cell(before: GridView, after: GridView, rows: Seq<Seq<char>>, ts: Map<(char, Color), BanditObj>, default_tile: Tile, y: int, c: int)
    requires
        0 <= y < rows.len() <= 1_000_000_000,
        0 <= c,
        2 * c + 1 < rows[y].len() < 1_000_000_000,
        partial_grid(before, rows, ts, default_tile, y, c),
        cell_placed(after, rows[y], ts, default_tile, Point { x: c as i32, y: y as i32 }),
        after.effects == before.effects,
        forall|p: Point| p != (Point { x: c as i32, y: y as i32 }) ==> (#[trigger] after.tiles.contains_key(p) <==> before.tiles.contains_key(p)),
        forall|p: Point| p != (Point { x: c as i32, y: y as i32 }) ==> (#[trigger] after.ents.contains_key(p) <==> before.ents.contains_key(p)),
        forall|p: Point| p != (Point { x: c as i32, y: y as i32 }) && before.tiles.contains_key(p) ==> #[trigger] after.tiles[p] == before.tiles[p],
        forall|p: Point| p != (Point { x: c as i32, y: y as i32 }) && before.ents.contains_key(p) ==> #[trigger] after.ents[p] == before.ents[p],
    ensures
        partial_grid(after, rows, ts, default_tile, y, c + 1),
{
    let pos = Point { x: c as i32, y: y as i32 };
    assert forall|p: Point| #[trigger] done_cell(rows, p, y, c + 1) implies cell_placed(after, rows[p.y as int], ts, default_tile, p) by {
        if p != pos {
            assert(done_cell(rows, p, y, c));
        }
    }
    assert forall|p: Point| #[trigger] after.tiles.contains_key(p) implies done_cell(rows, p, y, c + 1) by {
        if p != pos {
            assert(before.tiles.contains_key(p));
        }
    }
    assert forall|p: Point| #[trigger] after.ents.contains_key(p) implies done_cell(rows, p, y, c + 1) by {
        if p != pos {
            assert(before.ents.contains_key(p));
        }
    }
}

/// Reading a cell that holds no player leaves the last player read as it was.
proof fn lemma_advance_player(pl: Option<Point>, rows: Seq<Seq<char>>, ts: Map<(char, Color), BanditObj>, y: int, c: int)
    requires
        0 <= y < rows.len() <= 1_000_000_000,
        0 <= c,
        2 * c + 1 < rows[y].len() < 1_000_000_000,
        partial_player(pl, rows, ts, y, c),
        !player_cell(rows, ts, Point { x: c as i32, y: y as i32 }),
    ensures
        partial_player(pl, rows, ts, y, c + 1),
{
    let pos = Point { x: c as i32, y: y as i32 };
    match pl {
        Some(p) => {
            assert forall|q: Point| #[trigger] done_cell(rows, q, y, c + 1) && player_cell(rows, ts, q) implies !read_before(p, q) by {
                if q != pos {
                    assert(done_cell(rows, q, y, c));
                }
            }
        },
        None => {
            assert forall|q: Point| #[trigger] done_cell(rows, q, y, c + 1) implies !player_cell(rows, ts, q) by {
                if q != pos {
                    assert(done_cell(rows, q, y, c));
                }
            }
        },
    }
}

/// Where the player stands in a puzzle that has not placed one.
pub open spec fn spec_pl_default_pos() -> Point {
    Point { x: -69i32, y: -420i32 }
}

/// Where the player stands in a puzzle that has not placed one.
pub fn pl_default_pos() -> (p: Point)
    ensures
        p == spec_pl_default_pos(),
{
    Point::new(-69, -420)
}

/// Partially populated puzzle.
struct PuzzleBuilder {
    /// Map of the puzzle.
    data: Option<Grid>,
    /// Location of the player in the map.
    pl_pos: Option<Point>,
    /// Puzzle name.
    name: Option<String>,
    /// Unique identifier (md5 hash of the puzzle data).
    id: Option<u128>,
}

impl PuzzleBuilder {
    /// Create an empty puzzle builder.
    fn new() -> (b: Self)
        ensures
            b.data is None && b.pl_pos is None && b.name is None && b.id is None,
    {
        PuzzleBuilder { data: None, pl_pos: None, name: None, id: None }
    }

    /// Check it contains all necessary data for a puzzle.
    fn check(&self) -> (r: bool)
        ensures
            r == (self.data is Some && self.pl_pos is Some && self.name is Some && self.id is Some),
    {
        self.data.is_some() && self.pl_pos.is_some() && self.name.is_some() && self.id.is_some()
    }
}

/// Contains all necessary information for a puzzle.
pub struct Puzzle {
    /// Map of the puzzle.
    pub data: Grid,
    /// Location of the player in the map.
    pub pl_pos: Point,
    /// Puzzle name.
    pub name: String,
    /// Unique identifier (md5 hash of the puzzle data).
    pub id: u128,
}

/// The puzzle text has a player.
pub open spec fn has_player(rows: Seq<Seq<char>>, ts: Map<(char, Color), BanditObj>) -> bool {
    exists|p: Point| player_cell(rows, ts, p)
}

/// A puzzle text reads: every row reads and there is a player.
pub open spec fn pzl_text_ok(data: Seq<char>, ts: Map<(char, Color), BanditObj>) -> bool {
    rows_ok(spec_rows(data), ts) && has_player(spec_rows(data), ts)
}

/// The grid is what a puzzle text describes: the cells of its rows, as wide as its widest row
/// and as high as its number of rows.
pub open spec fn grid_of_text(g: GridView, data: Seq<char>, ts: Map<(char, Color), BanditObj>, default_tile: Tile) -> bool {
    let rows = spec_rows(data);
    &&& grid_of_rows(g, rows, ts, default_tile)
    &&& g.wid == rows_width(rows, rows.len() as int)
    &&& g.hgt == rows.len()
}

impl Puzzle {
    /// The puzzle is the one a text describes, under the given name: its grid, the last player
    /// cell as the player's position, and the text's identifier.
    pub open spec fn loaded(self, data: Seq<char>, ts: Map<(char, Color), BanditObj>, default_tile: Tile, name: Seq<char>) -> bool {
        &&& grid_of_text(self.data@, data, ts, default_tile)
        &&& last_player(Some(self.pl_pos), spec_rows(data), ts)
        &&& self.name@ == name
        &&& self.id as nat == spec_text_id(data)
    }

    /// Create an empty puzzle with a name.
    pub fn new(name: String) -> (p: Self)
        ensures
            p.data@ == (GridView { wid: 7, hgt: 7, tiles: Map::empty(), ents: Map::empty(), effects: Seq::empty() }),
            p.pl_pos == spec_pl_default_pos(),
            p.name == name,
            p.id == 0,
    {
        Puzzle { data: Grid::new(7, 7), pl_pos: pl_default_pos(), name, id: 0 }
    }

    /// Build a puzzle from a builder holding every part of one.
    fn try_from_builder(value: PuzzleBuilder) -> (r: Result<Self, ()>)
        ensures
            r is Ok <==> (value.data is Some && value.pl_pos is Some && value.name is Some && value.id is Some),
            r matches Ok(p) ==> p.data == value.data->0 && p.pl_pos == value.pl_pos->0 && p.name == value.name->0
                && p.id == value.id->0,
    {
        if value.check() {
            match (value.data, value.pl_pos, value.name, value.id) {
                (Some(data), Some(pl_pos), Some(name), Some(id)) => Ok(Puzzle { data, pl_pos, name, id }),
                _ => Err(()),
            }
        } else {
            Err(())
        }
    }
}

/// A group of puzzles.
pub struct PuzzlePack {
    /// Name of the pack.
    pub name: String,
    /// Actual puzzles contained.
    pub pzls: Vec<Puzzle>,
}

impl PuzzlePack {
    /// Create a new puzzle pack with the given name.
    pub fn new(name: String) -> (p: Self)
        ensures
            p.name == name,
            p.pzls@.len() == 0,
    {
        PuzzlePack { name, pzls: Vec::new() }
    }

    /// Add the puzzle to the pack.
    pub fn add_pzl(&mut self, pzl: Puzzle)
        ensures
            final(self).name == old(self).name,
            final(self).pzls@ == old(self).pzls@.push(pzl),
    {
        self.pzls.push(pzl);
    }
}

/// Turns a string into a map using a tile set.
fn create_map(data: &str, tile_set: &TileSet, default_tile: &Tile) -> (r: Result<PuzzleBuilder, PzlIOErr>)
    requires
        data@.len() < 1_000_000_000,
        default_tile.wf(),
    ensures
        r is Ok <==> rows_ok(spec_rows(data@), tile_set@),
        r matches Err(e) ==> e == PzlIOErr::InvalidFormat,
        r matches Ok(b) ==> {
            &&& b.data is Some
            &&& grid_of_text(b.data->0@, data@, tile_set@, *default_tile)
            &&& last_player(b.pl_pos, spec_rows(data@), tile_set@)
            &&& b.name is None
            &&& b.id matches Some(id) && id as nat == spec_text_id(data@)
        },
{
    let chars = chars_of(data);
    let ls = lines(chars.as_slice());
    let ghost rows = spec_rows(data@);
    let ghost ts = tile_set@;
    proof {
        lemma_lines_bounds(data@);
    }
    let n = ls.len();
    let mut map = Grid::new(69, 69);
    let mut pl: Option<Point> = None;
    let mut max_x: usize = 0;
    let mut y: usize = 0;
    proof {
        assert forall|p: Point| #[trigger] done_cell(rows, p, 0, 0) implies cell_placed(map@, rows[p.y as int], ts, *default_tile, p) by {}
    }
    while y < n
        invariant
            n == ls@.len() == rows.len() <= data@.len() + 1,
            data@.len() < 1_000_000_000,
            rows == spec_rows(data@),
            ts == tile_set@,
            default_tile.wf(),
            forall|k: int| 0 <= k < n ==> #[trigger] ls@[k]@ == spec_lines(data@)[k],
            forall|k: int| 0 <= k < n ==> (#[trigger] spec_lines(data@)[k]).len() <= data@.len(),
            y <= n,
            partial_grid(map@, rows, ts, *default_tile, y as int, 0),
            partial_player(pl, rows, ts, y as int, 0),
            forall|k: int| 0 <= k < y ==> row_ok(#[trigger] rows[k], ts),
            max_x == rows_width(rows, y as int),
            max_x <= data@.len(),
        decreases n - y,
    {
        let row = &ls[n - 1 - y];
        assert(row@ == rows[y as int]);
        match place_row(&mut map, &mut pl, row, y, tile_set, default_tile, Ghost(rows)) {
            Err(e) => {
                return Err(e);
            },
            Ok(()) => {},
        }
        let w = (row.len() + 1) / 2;
        if w > max_x {
            max_x = w;
        }
        y = y + 1;
    }
    map.set_size(max_x, n);
    let mut b = PuzzleBuilder::new();
    b.id = Some(text_id(data));
    b.data = Some(map);
    b.pl_pos = pl;
    Ok(b)
}

/// Uses the given tileset to turn a string into a puzzle. Unknown characters, or the lack of
/// a player, cause an error to be returned.
pub fn load_pzl(data: &str, default_tile: &Tile, tile_set: &TileSet, name: String) -> (r: Result<Puzzle, PzlIOErr>)
    requires
        data@.len() < 1_000_000_000,
        default_tile.wf(),
    ensures
        r is Ok <==> pzl_text_ok(data@, tile_set@),
        r matches Err(e) ==> e == PzlIOErr::InvalidFormat,
        r matches Ok(p) ==> p.loaded(data@, tile_set@, *default_tile, name@),
{
    let mut b = match create_map(data, tile_set, default_tile) {
        Ok(b) => b,
        Err(e) => {
            return Err(e);
        },
    };
    let ghost rows = spec_rows(data@);
    proof {
        match b.pl_pos {
            Some(p) => {
                assert(player_cell(rows, tile_set@, p));
            },
            None => {
                assert forall|q: Point| !player_cell(rows, tile_set@, q) by {
                    if player_cell(rows, tile_set@, q) {
                        assert(done_cell(rows, q, rows.len() as int, 0));
                    }
                }
            },
        }
    }
    b.name = Some(name);
    match Puzzle::try_from_builder(b) {
        Ok(p) => Ok(p),
        Err(u) => Err(PzlIOErr::from_unit(u)),
    }
}

/// The puzzles of a pack file from line `i` on, as pairs of a name and a text: a name line,
/// then text lines up to an empty line. Lines after the last empty line are not a puzzle.
pub open spec fn blocks_from(ls: Seq<Seq<char>>, i: int, name: Option<Seq<char>>, data: Seq<char>) -> Seq<(Seq<char>, Seq<char>)>
    decreases ls.len() - i,
{
    if i < 0 || i >= ls.len() {
        seq![]
    } else {
        match name {
            None => blocks_from(ls, i + 1, Some(ls[i]), seq![]),
            Some(nm) => if ls[i].len() == 0 {
                seq![(nm, data)] + blocks_from(ls, i + 1, None, seq![])
            } else {
                blocks_from(ls, i + 1, Some(nm), data + ls[i].push('\n'))
            },
        }
    }
}

/// The puzzles of a pack file: everything after its first line, which names the pack.
pub open spec fn pack_blocks(text: Seq<char>) -> Seq<(Seq<char>, Seq<char>)> {
    blocks_from(spec_lines(text), 1, None, seq![])
}

/// The name of a pack: its first line without surrounding white space; empty for an empty file.
pub open spec fn pack_name(text: Seq<char>) -> Seq<char> {
    if spec_lines(text).len() == 0 {
        seq![]
    } else {
        spec_trim(spec_lines(text)[0])
    }
}

/// The view of an optional list of characters.
pub open spec fn opt_view(o: Option<Vec<char>>) -> Option<Seq<char>> {
    match o {
        Some(v) => Some(v@),
        None => None,
    }
}

/// The pack is the one a pack file's text describes: its name, and for each block of the text
/// a puzzle loaded from it under the block's name.
pub open spec fn pack_loaded(pack: PuzzlePack, text: Seq<char>, ts: Map<(char, Color), BanditObj>, default_tile: Tile) -> bool {
    &&& pack.name@ == pack_name(text)
    &&& pack.pzls@.len() == pack_blocks(text).len()
    &&& forall|k: int| 0 <= k < pack.pzls@.len() ==> (#[trigger] pack.pzls@[k]).loaded(
        pack_blocks(text)[k].1, ts, default_tile, pack_blocks(text)[k].0)
}

/// Loads all puzzles of a pack from the text of a pack file. Fails when one of them does not
/// load.
pub fn load_pzls(text: &str, default_tile: &Tile, tile_set: &TileSet) -> (r: Result<PuzzlePack, PzlIOErr>)
    requires
        text@.len() < 999_999_999,
        default_tile.wf(),
    ensures
        r is Ok <==> forall|k: int| 0 <= k < pack_blocks(text@).len() ==> pzl_text_ok(#[trigger] pack_blocks(text@)[k].1, tile_set@),
        r matches Err(e) ==> e == PzlIOErr::InvalidFormat,
        r matches Ok(pack) ==> pack_loaded(pack, text@, tile_set@, *default_tile),
{
    let chars = chars_of(text);
    let ls = lines(chars.as_slice());
    let n = ls.len();
    let ghost l = spec_lines(text@);
    let ghost all = pack_blocks(text@);
    proof {
        lemma_lines_size(text@);
        assert(ls@.map_values(|v: Vec<char>| v@) =~= l);
    }
    let mut pack = PuzzlePack::new(String::new());
    let mut i: usize = 0;
    if n > 0 {
        let t = trim(ls[0].as_slice());
        pack.name = string_from_chars(t.as_slice());
        i = 1;
    }
    let mut name: Option<Vec<char>> = None;
    let mut data: Vec<char> = Vec::new();
    proof {
        assert(all.take(0) + blocks_from(l, i as int, None, seq![]) =~= all);
    }
    while i < n
        invariant
            n == ls@.len() == l.len(),
            forall|k: int| 0 <= k < n ==> #[trigger] ls@[k]@ == l[k],
            l == spec_lines(text@),
            all == pack_blocks(text@),
            pieces_size(l) <= text@.len() + 1,
            text@.len() < 999_999_999,
            default_tile.wf(),
            n > 0 ==> 1 <= i,
            i <= n,
            pack.name@ == pack_name(text@),
            pack.pzls@.len() <= all.len(),
            name is None ==> data@.len() == 0,
            all == all.take(pack.pzls@.len() as int) + blocks_from(l, i as int, opt_view(name), data@),
            forall|k: int| 0 <= k < pack.pzls@.len() ==> (#[trigger] pack.pzls@[k]).loaded(all[k].1, tile_set@, *default_tile, all[k].0),
            forall|k: int| 0 <= k < pack.pzls@.len() ==> pzl_text_ok(#[trigger] all[k].1, tile_set@),
            data@.len() + pieces_size(l.skip(i as int)) <= pieces_size(l),
        decreases n - i,
    {
        let line = &ls[i];
        let ghost m = pack.pzls@.len() as int;
        let ghost rest_before = blocks_from(l, i as int, opt_view(name), data@);
        proof {
            assert(l.skip(i as int).drop_first() =~= l.skip(i + 1));
            assert(l.skip(i as int)[0] == l[i as int]);
        }
        match name {
            None => {
                name = Some(slice_chars(line.as_slice(), 0, line.len()));
                proof {
                    assert(line@.subrange(0, line@.len() as int) =~= line@);
                    assert(data@ =~= Seq::<char>::empty());
                    assert(rest_before == blocks_from(l, i + 1, Some(l[i as int]), seq![]));
                }
            },
            Some(nm) => {
                if line.len() == 0 {
                    let ghost block = (nm@, data@);
                    proof {
                        assert(rest_before == seq![block] + blocks_from(l, i + 1, None, seq![]));
                        assert(all[m] == block);
                    }
                    let d = string_from_chars(data.as_slice());
                    let nms = string_from_chars(nm.as_slice());
                    match load_pzl(&d, default_tile, tile_set, nms) {
                        Err(e) => {
                            assert(!pzl_text_ok(pack_blocks(text@)[m].1, tile_set@));
                            return Err(e);
                        },
                        Ok(pzl) => {
                            pack.add_pzl(pzl);
                        },
                    }
                    name = None;
                    data = Vec::new();
                    proof {
                        assert(all.take(m + 1) =~= all.take(m) + seq![block]);
                        assert(all == all.take(m + 1) + blocks_from(l, i + 1, None, seq![]));
                    }
                } else {
                    let ghost old_data = data@;
                    append_chars(&mut data, line.as_slice());
                    data.push('\n');
                    proof {
                        assert(data@ =~= old_data + l[i as int].push('\n'));
                        assert(rest_before == blocks_from(l, i + 1, Some(nm@), data@));
                    }
                    name = Some(nm);
                }
            },
        }
        i = i + 1;
    }
    proof {
        assert(all =~= all.take(pack.pzls@.len() as int));
    }
    Ok(pack)
}

/// What the point of a grid writes in a puzzle file: its entity's characters, else its tile's,
/// else nothing.
pub open spec fn cell_text(g: GridView, p: Point) -> Seq<char> {
    if g.ents.contains_key(p) {
        g.ents[p].spec_file_repr()
    } else if g.tiles.contains_key(p) {
        g.tiles[p].spec_file_repr()
    } else {
        seq![]
    }
}

/// What the first `k` points of row `y` of a grid write, left to right.
pub open spec fn row_text(g: GridView, y: int, k: int) -> Seq<char>
    decreases k,
{
    if k <= 0 {
        seq![]
    } else {
        row_text(g, y, k - 1) + cell_text(g, Point { x: (k - 1) as i32, y: y as i32 })
    }
}

/// What the top `k` rows of a grid write, top row first, each followed by a line feed. A row
/// covers the points from 0 up to `cols`.
pub open spec fn rows_text(g: GridView, k: int, cols: int) -> Seq<char>
    decreases k,
{
    if k <= 0 {
        seq![]
    } else {
        rows_text(g, k - 1, cols) + row_text(g, g.hgt - k, cols) + seq!['\n']
    }
}

/// Every entity and tile that the first `cols` columns of a grid write has a colour that can be
/// written.
pub open spec fn writable(g: GridView, cols: int) -> bool {
    &&& cols <= 1_000_000_000
    &&& g.hgt < 1_000_000_000
    &&& forall|p: Point| 0 <= p.x < cols && 0 <= p.y < g.hgt && #[trigger] g.ents.contains_key(p) ==> g.ents[p].has_file_colour()
    &&& forall|p: Point| 0 <= p.x < cols && 0 <= p.y < g.hgt && !g.ents.contains_key(p) && #[trigger] g.tiles.contains_key(p)
        ==> g.tiles[p].has_file_colour()
}

/// The text of the rows of a grid, top row first, each row covering the points from 0 up to
/// `cols`.
pub fn grid_text(g: &Grid, cols: usize) -> (s: String)
    requires
        writable(g@, cols as int),
    ensures
        s@ == rows_text(g@, g@.hgt as int, cols as int),
{
    let hgt = g.hgt();
    let mut data = String::new();
    let mut k: usize = 0;
    while k < hgt
        invariant
            hgt == g@.hgt,
            writable(g@, cols as int),
            k <= hgt,
            data@ == rows_text(g@, k as int, cols as int),
        decreases hgt - k,
    {
        let y = hgt - 1 - k;
        let ghost before = data@;
        let mut x: usize = 0;
        while x < cols
            invariant
                hgt == g@.hgt,
                writable(g@, cols as int),
                y < hgt,
                x <= cols,
                data@ == before + row_text(g@, y as int, x as int),
            decreases cols - x,
        {
            let p = Point::new(x as i32, y as i32);
            match g.get_ent(p) {
                Some(e) => {
                    data.append(e.file_repr().as_str());
                },
                None => {
                    match g.get_map(p) {
                        Some(t) => {
                            data.append(t.file_repr().as_str());
                        },
                        None => {},
                    }
                },
            }
            x = x + 1;
            assert(data@ =~= before + row_text(g@, y as int, x as int));
        }
        crate::text::push_char(&mut data, '\n');
        k = k + 1;
        assert(data@ =~= rows_text(g@, k as int, cols as int));
    }
    data
}

impl Puzzle {
    /// The text of this puzzle in a puzzle file, without its name: every row, each covering
    /// the points from 0 to the width, both included.
    pub open spec fn spec_file_repr(self) -> Seq<char> {
        rows_text(self.data@, self.data@.hgt as int, self.data@.wid + 1)
    }

    /// Get this puzzle's file friendly textual representation. Does not include the name of the
    /// puzzle.
    pub fn file_repr(&self) -> (s: String)
        requires
            writable(self.data@, self.data@.wid + 1),
        ensures
            s@ == self.spec_file_repr(),
    {
        grid_text(&self.data, self.data.wid() + 1)
    }

    /// Update the identifier of this puzzle: the identifier of its text.
    pub fn update(&mut self)
        requires
            writable(old(self).data@, old(self).data@.wid + 1),
        ensures
            final(self).data == old(self).data,
            final(self).pl_pos == old(self).pl_pos,
            final(self).name == old(self).name,
            final(self).id as nat == spec_text_id(old(self).spec_file_repr()),
    {
        let text = self.file_repr();
        self.id = text_id(text.as_str());
    }
}

/// Number of sections.
pub const SECTION_COUNT: usize = 4;

/// Size of each puzzle section.
pub const SECTION_SIZES: [usize; SECTION_COUNT] = [0, 3, 5, 6];

/// Minimum completion of a section, as a fraction, to be able to see the sections after it:
/// numerator.
pub const MIN_COMP_NUM: usize = 7;

/// Minimum completion of a section, as a fraction: denominator.
pub const MIN_COMP_DEN: usize = 10;

/// The number of puzzles in section `k`: the sizes listed after the first, then 999.
pub open spec fn sect_size(k: int) -> int {
    if 0 <= k && k + 1 < SECTION_COUNT {
        SECTION_SIZES[k + 1] as int
    } else {
        999
    }
}

/// The index of the first puzzle of section `k`.
pub open spec fn sect_start(k: int) -> int
    decreases k,
{
    if k <= 0 {
        0
    } else {
        sect_start(k - 1) + sect_size(k - 1)
    }
}

/// The section the puzzle at index `i` belongs to.
pub open spec fn sect_of(i: int) -> int {
    if i < 3 {
        0
    } else if i < 8 {
        1
    } else if i < 14 {
        2
    } else {
        3 + (i - 14) / 999
    }
}

/// The sections start 0, 3, 8, 14, and then every 999 puzzles.
pub proof fn lemma_sect_start(k: int)
    requires
        0 <= k,
    ensures
        sect_start(k) == if k == 0 { 0 } else if k == 1 { 3 } else if k == 2 { 8 } else { 14 + 999 * (k - 3) },
    decreases k,
{
    if k > 0 {
        lemma_sect_start(k - 1);
    }
}

/// The section of a puzzle is the one whose puzzles surround its index.
pub proof fn lemma_sect_of(i: int)
    requires
        0 <= i,
    ensures
        0 <= sect_of(i),
        sect_start(sect_of(i)) <= i < sect_start(sect_of(i) + 1),
        forall|k: int| 0 <= k && #[trigger] sect_start(k) <= i < sect_start(k + 1) ==> k == sect_of(i),
{
    lemma_sect_start(sect_of(i));
    lemma_sect_start(sect_of(i) + 1);
    assert forall|k: int| 0 <= k && #[trigger] sect_start(k) <= i < sect_start(k + 1) implies k == sect_of(i) by {
        lemma_sect_start(k);
        lemma_sect_start(k + 1);
    }
}

/// The number of completed puzzles among those of index `lo` up to `hi`.
pub open spec fn count_done(pzls: Seq<Puzzle>, done: Set<u128>, lo: int, hi: int) -> nat
    decreases hi - lo,
{
    if hi <= lo {
        0
    } else {
        count_done(pzls, done, lo, hi - 1) + if done.contains(pzls[hi - 1].id) { 1nat } else { 0nat }
    }
}

proof fn lemma_count_done_le(pzls: Seq<Puzzle>, done: Set<u128>, lo: int, hi: int)
    ensures
        lo <= hi ==> count_done(pzls, done, lo, hi) <= hi - lo,
    decreases hi - lo,
{
    if hi > lo {
        lemma_count_done_le(pzls, done, lo, hi - 1);
    }
}

/// The number of completed puzzles of section `k` of a pack of puzzles.
pub open spec fn sect_count(pzls: Seq<Puzzle>, done: Set<u128>, k: int) -> nat {
    let hi = if sect_start(k + 1) < pzls.len() { sect_start(k + 1) } else { pzls.len() as int };
    count_done(pzls, done, sect_start(k), hi)
}

/// Whether the id is one of the completed ones.
pub(crate) fn is_done(completion: &HashSet<u128>, id: u128) -> (r: bool)
    ensures
        r == completion@.contains(id),
{
    broadcast use vstd::std_specs::hash::group_hash_axioms;
    completion.contains(&id)
}

/// Gets the puzzles completed for each section: one count for each section the pack reaches,
/// the last one counting the puzzles of the last, possibly unfinished, section.
pub fn sect_comps(pck: &PuzzlePack, completion: &HashSet<u128>) -> (comps: Vec<usize>)
    ensures
        comps@.len() == sect_of(pck.pzls@.len() as int) + 1,
        forall|k: int| 0 <= k < comps@.len() ==> #[trigger] comps@[k] == sect_count(pck.pzls@, completion@, k),
{
    let ghost pzls = pck.pzls@;
    let ghost done = completion@;
    let n = pck.pzls.len();
    let mut comps: Vec<usize> = Vec::new();
    let mut cur_comp: usize = 0;
    let mut cur_found: usize = 0;
    let mut i: usize = 0;
    proof {
        lemma_sect_start(0);
        lemma_sect_start(1);
    }
    while i < n
        invariant
            n == pzls.len(),
            pzls == pck.pzls@,
            done == completion@,
            i <= n,
            comps@.len() <= i,
            sect_start(comps@.len() as int) <= i < sect_start(comps@.len() as int + 1),
            cur_found == i - sect_start(comps@.len() as int),
            cur_comp == count_done(pzls, done, sect_start(comps@.len() as int), i as int),
            forall|k: int| 0 <= k < comps@.len() ==> #[trigger] comps@[k] == sect_count(pzls, done, k),
        decreases n - i,
    {
        let ghost k = comps@.len() as int;
        proof {
            lemma_count_done_le(pzls, done, sect_start(k), i as int);
            lemma_sect_start(k);
            lemma_sect_start(k + 1);
            lemma_sect_start(k + 2);
        }
        cur_found = cur_found + 1;
        if is_done(completion, pck.pzls[i].id) {
            cur_comp = cur_comp + 1;
        }
        let sz: usize = if comps.len() + 1 < SECTION_COUNT { SECTION_SIZES[comps.len() + 1] } else { 999 };
        assert(sz == sect_size(k));
        if cur_found >= sz {
            comps.push(cur_comp);
            cur_comp = 0;
            cur_found = 0;
            proof {
                assert(comps@[k] == sect_count(pzls, done, k));
            }
        }
        i = i + 1;
    }
    proof {
        lemma_sect_of(n as int);
    }
    comps.push(cur_comp);
    proof {
        let k = comps@.len() - 1;
        assert(comps@[k] == sect_count(pzls, done, k));
    }
    comps
}

/// Every section before section `j` has enough of its puzzles completed.
pub open spec fn sects_good(pzls: Seq<Puzzle>, done: Set<u128>, j: int) -> bool {
    forall|k: int| 0 <= k < j ==> #[trigger] sect_count(pzls, done, k) * MIN_COMP_DEN >= MIN_COMP_NUM * sect_size(k)
}

/// The number of sections of a pack of `len` puzzles whose completion is checked: those the
/// pack reaches, at most as many as there are listed sizes after the first.
pub open spec fn gated_sects(len: int) -> int {
    if sect_of(len) + 1 < SECTION_COUNT - 1 {
        sect_of(len) + 1
    } else {
        SECTION_COUNT - 1
    }
}

/// Whether the entry at index `i` of the unlocked list of a pack is `true`: every checked
/// section before the puzzle's own has enough puzzles completed.
pub open spec fn spec_unlocked(pzls: Seq<Puzzle>, done: Set<u128>, i: int) -> bool {
    let gz = gated_sects(pzls.len() as int);
    sects_good(pzls, done, if sect_of(i) < gz { sect_of(i) } else { gz })
}

/// The length of the unlocked list of a pack of `len` puzzles: every puzzle of a checked
/// section, and at least every puzzle of the pack.
pub open spec fn unlocked_len(len: int) -> int {
    if sect_start(gated_sects(len)) > len { sect_start(gated_sects(len)) } else { len }
}

/// Get the locked status of all puzzles provided: `true` for a puzzle that can be played.
/// A puzzle can be played when every checked section before its own has enough puzzles
/// completed; puzzles past the checked sections need all of them. Every puzzle of a checked
/// section gets an entry, so the list may be longer than the pack.
pub fn get_unlocked(pck: &PuzzlePack, completion: &HashSet<u128>) -> (lckd: Vec<bool>)
    ensures
        lckd@.len() == unlocked_len(pck.pzls@.len() as int),
        forall|i: int| 0 <= i < lckd@.len() ==> #[trigger] lckd@[i] == spec_unlocked(pck.pzls@, completion@, i),
{
    let ghost pzls = pck.pzls@;
    let ghost done = completion@;
    let ghost len = pzls.len() as int;
    let comps = sect_comps(pck, completion);
    let z: usize = if comps.len() < SECTION_COUNT - 1 { comps.len() } else { SECTION_COUNT - 1 };
    let ghost gz = gated_sects(len);
    assert(z == gz);
    let mut lckd: Vec<bool> = Vec::new();
    let mut finish = false;
    let mut j: usize = 0;
    proof {
        lemma_sect_start(0);
    }
    while j < z
        invariant
            pzls == pck.pzls@,
            done == completion@,
            len == pzls.len(),
            z == gz == gated_sects(len),
            z <= SECTION_COUNT - 1,
            z <= comps@.len(),
            comps@.len() == sect_of(len) + 1,
            forall|k: int| 0 <= k < comps@.len() ==> #[trigger] comps@[k] == sect_count(pzls, done, k),
            j <= z,
            lckd@.len() == sect_start(j as int),
            finish == !sects_good(pzls, done, j as int),
            forall|i: int| 0 <= i < lckd@.len() ==> #[trigger] lckd@[i] == sects_good(pzls, done, sect_of(i)),
        decreases z - j,
    {
        let sz = SECTION_SIZES[j + 1];
        proof {
            lemma_sect_start(j as int);
            lemma_sect_start(j + 1);
            assert(sz == sect_size(j as int));
        }
        let mut t: usize = 0;
        while t < sz
            invariant
                j < z <= SECTION_COUNT - 1,
                sz == sect_size(j as int),
                sect_start(j + 1) == sect_start(j as int) + sz,
                t <= sz,
                lckd@.len() == sect_start(j as int) + t,
                finish == !sects_good(pzls, done, j as int),
                forall|i: int| 0 <= i < lckd@.len() ==> #[trigger] lckd@[i] == sects_good(pzls, done, sect_of(i)),
            decreases sz - t,
        {
            proof {
                let i = lckd@.len() as int;
                lemma_sect_of(i);
                lemma_sect_start(j as int);
                assert(sect_of(i) == j);
            }
            lckd.push(!finish);
            t = t + 1;
        }
        let c = comps[j];
        proof {
            let hi = if sect_start(j + 1) < len { sect_start(j + 1) } else { len };
            lemma_count_done_le(pzls, done, sect_start(j as int), hi);
            lemma_sect_start(j + 1);
            assert(c <= 6);
        }
        if c * MIN_COMP_DEN < MIN_COMP_NUM * sz {
            finish = true;
        }
        proof {
            assert(sect_count(pzls, done, j as int) == c);
            if sects_good(pzls, done, j + 1) {
                assert(sect_count(pzls, done, j as int) * MIN_COMP_DEN >= MIN_COMP_NUM * sect_size(j as int));
            }
        }
        j = j + 1;
    }
    let n = pck.pzls.len();
    while lckd.len() < n
        invariant
            pzls == pck.pzls@,
            done == completion@,
            len == pzls.len() == n,
            z == gz,
            lckd@.len() >= sect_start(z as int) >= 0,
            lckd@.len() <= n || lckd@.len() == sect_start(z as int),
            finish == !sects_good(pzls, done, z as int),
            forall|i: int| 0 <= i < sect_start(z as int) ==> #[trigger] lckd@[i] == sects_good(pzls, done, sect_of(i)),
            forall|i: int| sect_start(z as int) <= i < lckd@.len() ==> #[trigger] lckd@[i] == sects_good(pzls, done, z as int),
        decreases n - lckd@.len(),
    {
        let ghost before = lckd@;
        lckd.push(!finish);
        proof {
            assert forall|i: int| sect_start(z as int) <= i < lckd@.len() implies #[trigger] lckd@[i] == sects_good(pzls, done, z as int) by {
                if i < before.len() {
                    assert(lckd@[i] == before[i]);
                }
            }
        }
    }
    proof {
        assert forall|i: int| 0 <= i < lckd@.len() implies #[trigger] lckd@[i] == spec_unlocked(pzls, done, i) by {
            lemma_sect_of(i);
            lemma_sect_start(z as int);
            lemma_sect_start(sect_of(i));
            lemma_sect_start(sect_of(i) + 1);
        }
    }
    lckd
}

/// A playable puzzle makes every earlier puzzle of its pack playable: the playable ones come
/// first.
pub proof fn lemma_unlocked_prefix(pzls: Seq<Puzzle>, done: Set<u128>, i: int, j: int)
    requires
        0 <= i <= j,
        spec_unlocked(pzls, done, j),
    ensures
        spec_unlocked(pzls, done, i),
{
    lemma_sect_of(i);
    lemma_sect_of(j);
    lemma_sect_start(sect_of(i));
    lemma_sect_start(sect_of(j));
    lemma_sect_start(sect_of(i) + 1);
    lemma_sect_start(sect_of(j) + 1);
}

/// The puzzles of the first section can always be played.
pub proof fn lemma_first_section_unlocked(pzls: Seq<Puzzle>, done: Set<u128>, i: int)
    requires
        0 <= i < sect_size(0),
    ensures
        spec_unlocked(pzls, done, i),
{
}

proof fn lemma_count_done_split(pzls: Seq<Puzzle>, done: Set<u128>, lo: int, mid: int, hi: int)
    requires
        lo <= mid <= hi,
    ensures
        count_done(pzls, done, lo, mid) + count_done(pzls, done, mid, hi) == count_done(pzls, done, lo, hi),
    decreases hi - mid,
{
    if hi > mid {
        lemma_count_done_split(pzls, done, lo, mid, hi - 1);
    }
}

proof fn lemma_count_done_all(pzls: Seq<Puzzle>, done: Set<u128>, lo: int, hi: int)
    requires
        0 <= lo <= hi <= pzls.len(),
        forall|k: int| 0 <= k < pzls.len() ==> done.contains(#[trigger] pzls[k].id),
    ensures
        count_done(pzls, done, lo, hi) == hi - lo,
    decreases hi - lo,
{
    if hi > lo {
        assert(done.contains(pzls[hi - 1].id));
        lemma_count_done_all(pzls, done, lo, hi - 1);
    }
}

/// When every puzzle of a pack is completed, every entry of its unlocked list is `true`.
pub proof fn lemma_all_done_unlocks(pzls: Seq<Puzzle>, done: Set<u128>, i: int)
    requires
        forall|k: int| 0 <= k < pzls.len() ==> done.contains(#[trigger] pzls[k].id),
        0 <= i < unlocked_len(pzls.len() as int),
    ensures
        spec_unlocked(pzls, done, i),
{
    let len = pzls.len() as int;
    let gz = gated_sects(len);
    lemma_sect_of(len);
    lemma_sect_of(i);
    lemma_sect_start(gz);
    lemma_sect_start(sect_of(len));
    lemma_sect_start(sect_of(i));
    lemma_sect_start(sect_of(i) + 1);
    let m = if sect_of(i) < gz { sect_of(i) } else { gz };
    assert forall|k: int| 0 <= k < m implies #[trigger] sect_count(pzls, done, k) * MIN_COMP_DEN >= MIN_COMP_NUM * sect_size(k) by {
        lemma_sect_start(k);
        lemma_sect_start(k + 1);
        assert(sect_start(k + 1) <= len);
        lemma_count_done_all(pzls, done, sect_start(k), sect_start(k + 1));
    }
}

/// The sum of the first `m` section counts.
pub open spec fn sum_counts(pzls: Seq<Puzzle>, done: Set<u128>, m: int) -> nat
    decreases m,
{
    if m <= 0 {
        0
    } else {
        sum_counts(pzls, done, m - 1) + sect_count(pzls, done, m - 1)
    }
}

/// The counts of the sections of a pack add up to the number of its completed puzzles.
pub proof fn lemma_sect_comps_sum(pzls: Seq<Puzzle>, done: Set<u128>)
    ensures
        sum_counts(pzls, done, sect_of(pzls.len() as int) + 1) == count_done(pzls, done, 0, pzls.len() as int),
{
    let len = pzls.len() as int;
    let s = sect_of(len);
    lemma_sect_of(len);
    lemma_sums_full(pzls, done, s);
    lemma_sect_start(s);
    lemma_sect_start(s + 1);
    lemma_count_done_split(pzls, done, 0, sect_start(s), len);
}

proof fn lemma_sums_full(pzls: Seq<Puzzle>, done: Set<u128>, m: int)
    requires
        0 <= m,
        sect_start(m) <= pzls.len(),
    ensures
        sum_counts(pzls, done, m) == count_done(pzls, done, 0, sect_start(m)),
    decreases m,
{
    lemma_sect_start(m);
    if m > 0 {
        lemma_sect_start(m - 1);
        lemma_sums_full(pzls, done, m - 1);
        lemma_count_done_split(pzls, done, 0, sect_start(m - 1), sect_start(m));
    }
}

impl Clone for Puzzle {
    fn clone(&self) -> (p: Self)
        ensures
            p.data@.same_as(self.data@),
            p.pl_pos == self.pl_pos,
            p.name == self.name,
            p.id == self.id,
    {
        Puzzle { data: self.data.clone(), pl_pos: self.pl_pos, name: self.name.clone(), id: self.id }
    }
}

impl Clone for PuzzlePack {
    fn clone(&self) -> (p: Self)
        ensures
            p.name == self.name,
            p.pzls@.len() == self.pzls@.len(),
            forall|k: int| 0 <= k < p.pzls@.len() ==> {
                &&& (#[trigger] p.pzls@[k]).data@.same_as(self.pzls@[k].data@)
                &&& p.pzls@[k].pl_pos == self.pzls@[k].pl_pos
                &&& p.pzls@[k].name == self.pzls@[k].name
                &&& p.pzls@[k].id == self.pzls@[k].id
            },
    {
        let mut pzls: Vec<Puzzle> = Vec::new();
        let mut i: usize = 0;
        while i < self.pzls.len()
            invariant
                i <= self.pzls@.len(),
                pzls@.len() == i,
                forall|k: int| 0 <= k < i ==> {
                    &&& (#[trigger] pzls@[k]).data@.same_as(self.pzls@[k].data@)
                    &&& pzls@[k].pl_pos == self.pzls@[k].pl_pos
                    &&& pzls@[k].name == self.pzls@[k].name
                    &&& pzls@[k].id == self.pzls@[k].id
                },
            decreases self.pzls@.len() - i,
        {
            pzls.push(self.pzls[i].clone());
            i = i + 1;
        }
        PuzzlePack { name: self.name.clone(), pzls }
    }
}

/// A game as the puzzle starts it: on a copy of its map, with the player where the puzzle
/// puts it, not won, no moves played and no colours arriving anywhere.
pub open spec fn fresh(pzl: Puzzle, g: GameView) -> bool {
    &&& g.map.same_as(pzl.data@)
    &&& g.inpts == Map::<Point, Seq<Clr>>::empty()
    &&& g.player == pzl.pl_pos
    &&& g.dir == (Point { x: 0i32, y: 0i32 })
    &&& !g.won
    &&& g.moves.len() == 0
}

/// Initialise a puzzle: a game on a copy of its map, with the player where the puzzle puts
/// it, not won, no moves played and no colours arriving anywhere.
pub fn start_puzzle(pzl: &Puzzle) -> (g: Game)
    ensures
        fresh(*pzl, g@),
{
    Game { map: pzl.data.clone(), inpts: Inputs::new(), player: pzl.pl_pos, dir: Point::origin(), won: false, moves: Vec::new() }
}
} // verus!
