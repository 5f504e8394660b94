//! Laser colours, directions and beams.

use vstd::prelude::*;
use std::collections::HashMap;
use crate::point::Point;
use crate::style::{Color, StyleCh};

verus! {

/// A laser colour. Each colour is a set of the three primary colours red, green and blue,
/// written as three bits: red is `0b100`, green `0b010` and blue `0b001`.
#[derive(Clone, Copy, Debug, PartialEq, Eq, Structural)]
pub enum Clr {
    Black,
    Red,
    Green,
    Blue,
    Yellow,
    Magenta,
    Cyan,
    White,
}

impl Clr {
    /// The three colour bits of this colour.
    pub open spec fn spec_bits(self) -> u8 {
        match self {
            Clr::Black => 0b000,
            Clr::Red => 0b100,
            Clr::Green => 0b010,
            Clr::Blue => 0b001,
            Clr::Yellow => 0b110,
            Clr::Magenta => 0b101,
            Clr::Cyan => 0b011,
            Clr::White => 0b111,
        }
    }

    /// The colour with the given three colour bits.
    pub open spec fn spec_from_bits(val: u8) -> Clr {
        if val == 0b000 {
            Clr::Black
        } else if val == 0b100 {
            Clr::Red
        } else if val == 0b010 {
            Clr::Green
        } else if val == 0b001 {
            Clr::Blue
        } else if val == 0b110 {
            Clr::Yellow
        } else if val == 0b101 {
            Clr::Magenta
        } else if val == 0b011 {
            Clr::Cyan
        } else {
            Clr::White
        }
    }

    /// The three colour bits of this colour.
    #[verifier::when_used_as_spec(spec_bits)]
    pub fn bits(self) -> (b: u8)
        ensures
            b == self.spec_bits(),
            b < 8,
    {
        match self {
            Clr::Black => 0b000,
            Clr::Red => 0b100,
            Clr::Green => 0b010,
            Clr::Blue => 0b001,
            Clr::Yellow => 0b110,
            Clr::Magenta => 0b101,
            Clr::Cyan => 0b011,
            Clr::White => 0b111,
        }
    }

    /// The colour with the given colour bits. Every value below 8 is a colour.
    pub fn from_u8(val: u8) -> (c: Clr)
        requires
            val < 8,
        ensures
            c == Clr::spec_from_bits(val),
            c.spec_bits() == val,
    {
        if val == 0b000 {
            Clr::Black
        } else if val == 0b100 {
            Clr::Red
        } else if val == 0b010 {
            Clr::Green
        } else if val == 0b001 {
            Clr::Blue
        } else if val == 0b110 {
            Clr::Yellow
        } else if val == 0b101 {
            Clr::Magenta
        } else if val == 0b011 {
            Clr::Cyan
        } else {
            Clr::White
        }
    }

    /// Returns the colour you would get by mixing the given two together: the union of their
    /// primary colours.
    pub fn mix(self, other: Self) -> (c: Self)
        ensures
            c.spec_bits() == self.spec_bits() | other.spec_bits(),
            c == Clr::spec_from_bits(self.spec_bits() | other.spec_bits()),
    {
        let a = self.bits();
        let b = other.bits();
        assert(a < 8 && b < 8 ==> a | b < 8) by (bit_vector);
        Clr::from_u8(a | b)
    }

    /// The darker terminal colour matching this colour.
    pub open spec fn spec_darker(self) -> Color {
        match self {
            Clr::Black => Color::Black,
            Clr::Red => Color::DarkRed,
            Clr::Green => Color::DarkGreen,
            Clr::Blue => Color::DarkBlue,
            Clr::Yellow => Color::DarkYellow,
            Clr::Magenta => Color::DarkMagenta,
            Clr::Cyan => Color::DarkCyan,
            Clr::White => Color::Grey,
        }
    }

    /// Return the darker variant of this colour, e.g. yellow goes to dark yellow. Nothing is
    /// darker than black, and white goes to grey.
    pub fn darker(&self) -> (c: Color)
        ensures
            c == self.spec_darker(),
    {
        match self {
            Clr::Black => Color::Black,
            Clr::Red => Color::DarkRed,
            Clr::Green => Color::DarkGreen,
            Clr::Blue => Color::DarkBlue,
            Clr::Yellow => Color::DarkYellow,
            Clr::Magenta => Color::DarkMagenta,
            Clr::Cyan => Color::DarkCyan,
            Clr::White => Color::Grey,
        }
    }

    /// The terminal colour of the same name.
    pub open spec fn spec_to_color(self) -> Color {
        match self {
            Clr::Black => Color::Black,
            Clr::Red => Color::Red,
            Clr::Green => Color::Green,
            Clr::Blue => Color::Blue,
            Clr::Yellow => Color::Yellow,
            Clr::Magenta => Color::Magenta,
            Clr::Cyan => Color::Cyan,
            Clr::White => Color::White,
        }
    }

    /// The terminal colour of the same name.
    pub fn to_color(self) -> (c: Color)
        ensures
            c == self.spec_to_color(),
    {
        match self {
            Clr::Black => Color::Black,
            Clr::Red => Color::Red,
            Clr::Green => Color::Green,
            Clr::Blue => Color::Blue,
            Clr::Yellow => Color::Yellow,
            Clr::Magenta => Color::Magenta,
            Clr::Cyan => Color::Cyan,
            Clr::White => Color::White,
        }
    }

    /// The laser colour of the same name as a terminal colour, if there is one.
    pub open spec fn spec_from_color(c: Color) -> Option<Clr> {
        match c {
            Color::Black => Some(Clr::Black),
            Color::Red => Some(Clr::Red),
            Color::Green => Some(Clr::Green),
            Color::Blue => Some(Clr::Blue),
            Color::Yellow => Some(Clr::Yellow),
            Color::Magenta => Some(Clr::Magenta),
            Color::Cyan => Some(Clr::Cyan),
            Color::White => Some(Clr::White),
            _ => None,
        }
    }

    /// The laser colour of the same name as a terminal colour; an error for the other
    /// terminal colours.
    pub fn from_color(value: Color) -> (r: Result<Clr, ()>)
        ensures
            r is Ok <==> Clr::spec_from_color(value) is Some,
            r matches Ok(c) ==> Clr::spec_from_color(value) == Some(c),
    {
        match value {
            Color::Black => Ok(Clr::Black),
            Color::Red => Ok(Clr::Red),
            Color::Green => Ok(Clr::Green),
            Color::Blue => Ok(Clr::Blue),
            Color::Yellow => Ok(Clr::Yellow),
            Color::Magenta => Ok(Clr::Magenta),
            Color::Cyan => Ok(Clr::Cyan),
            Color::White => Ok(Clr::White),
            _ => Err(()),
        }
    }

    /// The letter naming this colour in files: `n` (null) for black, otherwise the initial.
    pub open spec fn spec_to_char(self) -> char {
        match self {
            Clr::Black => 'n',
            Clr::Red => 'r',
            Clr::Green => 'g',
            Clr::Blue => 'b',
            Clr::Yellow => 'y',
            Clr::Magenta => 'm',
            Clr::Cyan => 'c',
            Clr::White => 'w',
        }
    }

    /// The letter naming this colour in files.
    pub fn to_char(self) -> (ch: char)
        ensures
            ch == self.spec_to_char(),
    {
        match self {
            Clr::Black => 'n',
            Clr::Red => 'r',
            Clr::Green => 'g',
            Clr::Blue => 'b',
            Clr::Yellow => 'y',
            Clr::Magenta => 'm',
            Clr::Cyan => 'c',
            Clr::White => 'w',
        }
    }

    /// The colour named by a letter, if any.
    pub open spec fn spec_from_char(ch: char) -> Option<Clr> {
        if ch == 'n' {
            Some(Clr::Black)
        } else if ch == 'r' {
            Some(Clr::Red)
        } else if ch == 'g' {
            Some(Clr::Green)
        } else if ch == 'b' {
            Some(Clr::Blue)
        } else if ch == 'y' {
            Some(Clr::Yellow)
        } else if ch == 'm' {
            Some(Clr::Magenta)
        } else if ch == 'c' {
            Some(Clr::Cyan)
        } else if ch == 'w' {
            Some(Clr::White)
        } else {
            None
        }
    }

    /// The colour named by a letter; an error for any other character.
    pub fn from_char(ch: char) -> (r: Result<Clr, ()>)
        ensures
            r is Ok <==> Clr::spec_from_char(ch) is Some,
            r matches Ok(c) ==> Clr::spec_from_char(ch) == Some(c),
    {
        if ch == 'n' {
            Ok(Clr::Black)
        } else if ch == 'r' {
            Ok(Clr::Red)
        } else if ch == 'g' {
            Ok(Clr::Green)
        } else if ch == 'b' {
            Ok(Clr::Blue)
        } else if ch == 'y' {
            Ok(Clr::Yellow)
        } else if ch == 'm' {
            Ok(Clr::Magenta)
        } else if ch == 'c' {
            Ok(Clr::Cyan)
        } else if ch == 'w' {
            Ok(Clr::White)
        } else {
            Err(())
        }
    }
}

impl Default for Clr {
    fn default() -> (c: Clr)
        ensures
            c == Clr::Black,
    {
        Clr::Black
    }
}

/// A colour is determined by its bits, and every three-bit value is a colour.
pub proof fn lemma_bits_roundtrip(c: Clr, v: u8)
    ensures
        Clr::spec_from_bits(c.spec_bits()) == c,
        c.spec_bits() < 8,
        v < 8 ==> Clr::spec_from_bits(v).spec_bits() == v,
{
}

/// Mixing colours is commutative, associative and idempotent; black mixes to the other
/// colour and white absorbs every colour.
pub proof fn lemma_mix_laws(a: Clr, b: Clr, c: Clr)
    ensures
        Clr::spec_from_bits(a.spec_bits() | b.spec_bits()) == Clr::spec_from_bits(
            b.spec_bits() | a.spec_bits(),
        ),
        Clr::spec_from_bits(Clr::spec_from_bits(a.spec_bits() | b.spec_bits()).spec_bits()
            | c.spec_bits()) == Clr::spec_from_bits(
            a.spec_bits() | Clr::spec_from_bits(b.spec_bits() | c.spec_bits()).spec_bits(),
        ),
        Clr::spec_from_bits(a.spec_bits() | a.spec_bits()) == a,
        Clr::spec_from_bits(a.spec_bits() | Clr::Black.spec_bits()) == a,
        Clr::spec_from_bits(a.spec_bits() | Clr::White.spec_bits()) == Clr::White,
{
    let x = a.spec_bits();
    let y = b.spec_bits();
    let z = c.spec_bits();
    assert(x < 8 && y < 8 ==> x | y < 8) by (bit_vector);
    assert(y < 8 && z < 8 ==> y | z < 8) by (bit_vector);
    assert(x | y == y | x) by (bit_vector);
    assert((x | y) | z == x | (y | z)) by (bit_vector);
    assert(x | x == x) by (bit_vector);
    assert(x | 0 == x) by (bit_vector);
    assert(x < 8 ==> x | 7 == 7) by (bit_vector);
    lemma_bits_roundtrip(a, x | y);
    lemma_bits_roundtrip(b, y | z);
}

/// Naming a colour by its letter, or by a terminal colour, and reading it back gives the
/// same colour.
pub proof fn lemma_names_roundtrip(c: Clr)
    ensures
        Clr::spec_from_char(c.spec_to_char()) == Some(c),
        Clr::spec_from_color(c.spec_to_color()) == Some(c),
{
}

/// A direction one step to one of the eight neighbouring cells.
pub open spec fn is_unit_dir(d: Point) -> bool {
    &&& -1 <= d.x <= 1
    &&& -1 <= d.y <= 1
    &&& !(d.x == 0 && d.y == 0)
}

/// The direction out of an object through the given port. Ports are numbered clockwise
/// starting at the top left.
pub open spec fn spec_port_dir(i: int) -> Point {
    if i == 0 {
        Point { x: -1i32, y: 1i32 }
    } else if i == 1 {
        Point { x: 0i32, y: 1i32 }
    } else if i == 2 {
        Point { x: 1i32, y: 1i32 }
    } else if i == 3 {
        Point { x: 1i32, y: 0i32 }
    } else if i == 4 {
        Point { x: 1i32, y: -1i32 }
    } else if i == 5 {
        Point { x: 0i32, y: -1i32 }
    } else if i == 6 {
        Point { x: -1i32, y: -1i32 }
    } else {
        Point { x: -1i32, y: 0i32 }
    }
}

/// Maps port numbers to directions out of the object.
pub fn port_dir(i: usize) -> (p: Point)
    requires
        i < 8,
    ensures
        p == spec_port_dir(i as int),
        is_unit_dir(p),
{
    if i == 0 {
        Point::new(-1, 1)
    } else if i == 1 {
        Point::new(0, 1)
    } else if i == 2 {
        Point::new(1, 1)
    } else if i == 3 {
        Point::new(1, 0)
    } else if i == 4 {
        Point::new(1, -1)
    } else if i == 5 {
        Point::new(0, -1)
    } else if i == 6 {
        Point::new(-1, -1)
    } else {
        Point::new(-1, 0)
    }
}

/// The port through which a beam travelling in the given direction enters an object.
pub open spec fn spec_port_num(d: Point) -> int {
    if d.x == 1 && d.y == -1 {
        0
    } else if d.x == 0 && d.y == -1 {
        1
    } else if d.x == -1 && d.y == -1 {
        2
    } else if d.x == -1 && d.y == 0 {
        3
    } else if d.x == -1 && d.y == 1 {
        4
    } else if d.x == 0 && d.y == 1 {
        5
    } else if d.x == 1 && d.y == 1 {
        6
    } else {
        7
    }
}

/// Convert a direction into an object into its port number.
pub fn port_num(in_dir: Point) -> (n: usize)
    requires
        is_unit_dir(in_dir),
    ensures
        n == spec_port_num(in_dir),
        n < 8,
{
    if in_dir.x == 1 && in_dir.y == -1 {
        0
    } else if in_dir.x == 0 && in_dir.y == -1 {
        1
    } else if in_dir.x == -1 && in_dir.y == -1 {
        2
    } else if in_dir.x == -1 && in_dir.y == 0 {
        3
    } else if in_dir.x == -1 && in_dir.y == 1 {
        4
    } else if in_dir.x == 0 && in_dir.y == 1 {
        5
    } else if in_dir.x == 1 && in_dir.y == 1 {
        6
    } else {
        7
    }
}

/// A beam entering an object through port `port_num(d)` came from the direction that port
/// points to, and the port numbers and port directions are inverse to each other.
pub proof fn lemma_port_dirs(d: Point, i: int)
    requires
        is_unit_dir(d),
        0 <= i < 8,
    ensures
        spec_port_dir(spec_port_num(d)) == (Point { x: -d.x as i32, y: -d.y as i32 }),
        is_unit_dir(spec_port_dir(i)),
        spec_port_num(Point { x: -spec_port_dir(i).x as i32, y: -spec_port_dir(i).y as i32 }) == i,
{
}

/// The index of the drawing character of a horizontal or vertical direction: up, right, down,
/// left.
pub open spec fn spec_dir_idx(d: Point) -> int {
    if d.x == 0 && d.y == 1 {
        0
    } else if d.x == 1 && d.y == 0 {
        1
    } else if d.x == 0 && d.y == -1 {
        2
    } else {
        3
    }
}

/// Characters used for non diagonal lasers.
pub open spec fn spec_dir_char(i: int) -> char {
    if i % 2 == 0 {
        '│'
    } else {
        '─'
    }
}

/// Characters for diagonal lasers.
pub open spec fn spec_diag_char(i: int) -> char {
    if i == 0 {
        '╲'
    } else {
        '╱'
    }
}

/// A laser beam.
#[derive(Clone, Copy, Debug, PartialEq, Eq, Structural)]
pub struct Beam {
    /// Colour of the laser.
    pub clr: Clr,
    /// Direction of the laser.
    pub dir: Point,
}

/// Half of a number, rounded towards zero.
pub open spec fn half_towards_zero(p: int) -> int {
    if p >= 0 { p / 2 } else { -((-p) / 2) }
}

impl Beam {
    /// Create a new laser beam.
    pub fn new(clr: Clr, dir: Point) -> (b: Self)
        ensures
            b == (Beam { clr, dir }),
    {
        Self { clr, dir }
    }

    /// True if this laser is diagonal, otherwise false.
    pub fn is_diag(&self) -> (r: bool)
        ensures
            r == (self.dir.x != 0 && self.dir.y != 0),
    {
        self.dir.x != 0 && self.dir.y != 0
    }

    /// The index of the diagonal drawing character of this beam: half of one more than the
    /// product of its coordinates, rounded towards zero, as a `usize`. For a unit direction
    /// that is 1 when the beam goes up-right or down-left and 0 otherwise; it is only
    /// meaningful for diagonal beams.
    pub fn diag_idx(&self) -> (i: usize)
        requires
            i32::MIN <= self.dir.x * self.dir.y < i32::MAX,
        ensures
            i == (half_towards_zero(self.dir.x * self.dir.y + 1) as usize),
            is_unit_dir(self.dir) ==> i == (if self.dir.x * self.dir.y == 1 { 1int } else { 0int }),
    {
        let x = self.dir.x;
        let y = self.dir.y;
        let p = x * y + 1;
        let q = p / 2;
        assert(q == half_towards_zero(p as int));
        proof {
            if is_unit_dir(self.dir) {
                assert(x * y == -1 || x * y == 0 || x * y == 1) by (nonlinear_arith)
                    requires
                        -1 <= x <= 1,
                        -1 <= y <= 1,
                ;
            }
        }
        q as usize
    }

    /// The character this beam is drawn with when it crosses an empty cell.
    pub open spec fn spec_draw_char(self) -> char {
        if self.dir.x != 0 && self.dir.y != 0 {
            spec_diag_char(if self.dir.x * self.dir.y == 1 { 1 } else { 0 })
        } else {
            spec_dir_char(spec_dir_idx(self.dir))
        }
    }

    /// The character this beam is drawn with when it crosses an empty cell.
    pub fn draw_char(&self) -> (ch: char)
        requires
            is_unit_dir(self.dir),
        ensures
            ch == self.spec_draw_char(),
    {
        if self.is_diag() {
            if self.diag_idx() == 0 {
                '╲'
            } else {
                '╱'
            }
        } else {
            let d = self.dir;
            let i: usize = if d.x == 0 && d.y == 1 {
                0
            } else if d.x == 1 && d.y == 0 {
                1
            } else if d.x == 0 && d.y == -1 {
                2
            } else {
                3
            };
            if i % 2 == 0 {
                '│'
            } else {
                '─'
            }
        }
    }

    /// The styled character drawn for this beam.
    pub fn styled_char(&self) -> (s: StyleCh)
        requires
            is_unit_dir(self.dir),
        ensures
            s == (StyleCh { content: self.spec_draw_char(), fg: Some(self.clr.spec_to_color()), bg: None }),
    {
        StyleCh::with(self.draw_char(), self.clr.to_color())
    }
}


/// The number a point is stored under: its coordinates, each moved into the unsigned range,
/// side by side.
pub open spec fn point_code(p: Point) -> u64 {
    ((p.x as int + 2147483648) * 4294967296 + (p.y as int + 2147483648)) as u64
}

/// Different points are stored under different numbers.
proof fn lemma_point_code_injective(a: Point, b: Point)
    ensures
        0 <= (a.x as int + 2147483648) * 4294967296 + (a.y as int + 2147483648) <= u64::MAX,
        point_code(a) == point_code(b) ==> a == b,
{
    let (x1, y1, x2, y2) = (a.x as int + 2147483648, a.y as int + 2147483648, b.x as int + 2147483648, b.y as int + 2147483648);
    assert(0 <= x1 * 4294967296 + y1 <= 4294967295 * 4294967296 + 4294967295) by (nonlinear_arith)
        requires
            0 <= x1 < 4294967296, 0 <= y1 < 4294967296,
    ;
    assert(0 <= x2 * 4294967296 + y2 <= 4294967295 * 4294967296 + 4294967295) by (nonlinear_arith)
        requires
            0 <= x2 < 4294967296, 0 <= y2 < 4294967296,
    ;
    assert(x1 * 4294967296 + y1 == x2 * 4294967296 + y2 ==> x1 == x2 && y1 == y2) by (nonlinear_arith)
        requires
            0 <= y1 < 4294967296, 0 <= y2 < 4294967296,
    ;
}

/// The number a point is stored under.
fn point_code_of(p: Point) -> (n: u64)
    ensures
        n == point_code(p),
{
    proof {
        lemma_point_code_injective(p, p);
    }
    let x = (p.x as i64 + 2147483648) as u64;
    let y = (p.y as i64 + 2147483648) as u64;
    assert(x * 4294967296 + y <= u64::MAX);
    x * 4294967296 + y
}

/// The colours arriving at the ports of each object, by position.
pub struct Inputs(HashMap<u64, crate::port::Clrs>);

impl View for Inputs {
    type V = Map<Point, Seq<Clr>>;

    closed spec fn view(&self) -> Map<Point, Seq<Clr>> {
        Map::new(|p: Point| self.0@.contains_key(point_code(p)), |p: Point| self.0@[point_code(p)]@)
    }
}

impl Inputs {
    /// No colours arrive anywhere.
    pub fn new() -> (i: Self)
        ensures
            i@ == Map::<Point, Seq<Clr>>::empty(),
    {
        broadcast use vstd::std_specs::hash::group_hash_axioms;
        let i = Inputs(HashMap::new());
        assert(i@ =~= Map::<Point, Seq<Clr>>::empty());
        i
    }

    /// The colours arriving at the object at a point, if any were recorded.
    pub fn get(&self, p: Point) -> (r: Option<crate::port::Clrs>)
        ensures
            match r {
                Some(c) => self@.contains_key(p) && c@ == self@[p],
                None => !self@.contains_key(p),
            },
    {
        broadcast use vstd::std_specs::hash::group_hash_axioms;
        let code = point_code_of(p);
        match self.0.get(&code) {
            Some(c) => Some(*c),
            None => None,
        }
    }

    /// Record the colours arriving at the object at a point.
    pub fn set(&mut self, p: Point, c: crate::port::Clrs)
        ensures
            final(self)@ == old(self)@.insert(p, c@),
    {
        broadcast use vstd::std_specs::hash::group_hash_axioms;
        let code = point_code_of(p);
        self.0.insert(code, c);
        proof {
            assert forall|q: Point| #[trigger] self@.contains_key(q) <==> old(self)@.insert(p, c@).contains_key(q) by {
                lemma_point_code_injective(q, p);
            }
            assert forall|q: Point| #[trigger] self@.contains_key(q) implies self@[q] == old(self)@.insert(p, c@)[q] by {
                lemma_point_code_injective(q, p);
            }
        }
        assert(self@ =~= old(self)@.insert(p, c@));
    }

    /// Forget all colours.
    pub fn clear(&mut self)
        ensures
            final(self)@ == Map::<Point, Seq<Clr>>::empty(),
    {
        *self = Inputs::new();
    }
}

/// The colours at the ports with one port's colour replaced.
pub fn set_port(c: crate::port::Clrs, i: usize, v: Clr) -> (r: crate::port::Clrs)
    requires
        i < 8,
    ensures
        r@ == c@.update(i as int, v),
{
    let mut r = c;
    r[i] = v;
    r
}
} // verus!
