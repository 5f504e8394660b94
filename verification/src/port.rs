//! Ports of objects and the expressions that compute their output colours.

use vstd::prelude::*;
use crate::beam::Clr;
use crate::text::chars_of;

verus! {

/// The colours arriving at (or leaving) the eight ports of an object.
pub type Clrs = [Clr; 8];

/// An operation that can be performed on two expressions.
#[derive(Clone, Copy, Debug, PartialEq, Eq, Structural)]
pub enum Op {
    /// Bitwise or.
    Or,
    /// Bitwise and.
    And,
    /// Bitwise xor.
    Xor,
}

impl Op {
    /// The value of this operation on two colour values.
    pub open spec fn spec_eval(self, lhs: u8, rhs: u8) -> u8 {
        match self {
            Op::Or => lhs | rhs,
            Op::And => lhs & rhs,
            Op::Xor => lhs ^ rhs,
        }
    }

    /// Performs this operation on the two inputs.
    pub fn eval(&self, lhs: u8, rhs: u8) -> (r: u8)
        ensures
            r == self.spec_eval(lhs, rhs),
    {
        match *self {
            Op::Or => lhs | rhs,
            Op::And => lhs & rhs,
            Op::Xor => lhs ^ rhs,
        }
    }

    /// The operation written with the given character, if any.
    pub open spec fn spec_from_char(ch: char) -> Option<Op> {
        if ch == '|' {
            Some(Op::Or)
        } else if ch == '&' {
            Some(Op::And)
        } else if ch == '^' {
            Some(Op::Xor)
        } else {
            None
        }
    }

    /// The operation written with the given character: `|`, `&` or `^`.
    pub fn from_char(value: char) -> (r: Result<Op, ExprParseErr>)
        ensures
            match Op::spec_from_char(value) {
                Some(op) => r == Ok::<Op, ExprParseErr>(op),
                None => r == Err::<Op, ExprParseErr>(ExprParseErr::InvalidOp),
            },
    {
        if value == '|' {
            Ok(Op::Or)
        } else if value == '&' {
            Ok(Op::And)
        } else if value == '^' {
            Ok(Op::Xor)
        } else {
            Err(ExprParseErr::InvalidOp)
        }
    }
}

/// An operation that can be performed on a single expression.
#[derive(Clone, Copy, Debug, PartialEq, Eq, Structural)]
pub enum UnaryOp {
    /// Bitwise not (of the three colour bits).
    Not,
    /// Maps primary colours to themselves and everything else to 0.
    Primary,
}

impl UnaryOp {
    /// The value of this operation on a colour value.
    pub open spec fn spec_eval(self, lhs: u8) -> u8 {
        match self {
            UnaryOp::Not => (0b111u8 ^ lhs) as u8,
            UnaryOp::Primary => if lhs == 0b100 || lhs == 0b010 || lhs == 0b001 {
                lhs
            } else {
                0
            },
        }
    }

    /// Performs this operation on the input.
    pub fn eval(&self, lhs: u8) -> (r: u8)
        ensures
            r == self.spec_eval(lhs),
    {
        match *self {
            UnaryOp::Not => 0b111 ^ lhs,
            UnaryOp::Primary => if lhs == 0b100 || lhs == 0b010 || lhs == 0b001 {
                lhs
            } else {
                0
            },
        }
    }

    /// The operation written with the given character, if any.
    pub open spec fn spec_from_char(ch: char) -> Option<UnaryOp> {
        if ch == '!' {
            Some(UnaryOp::Not)
        } else if ch == 'P' {
            Some(UnaryOp::Primary)
        } else {
            None
        }
    }

    /// The operation written with the given character: `!` or `P`.
    pub fn from_char(value: char) -> (r: Result<UnaryOp, ExprParseErr>)
        ensures
            match UnaryOp::spec_from_char(value) {
                Some(op) => r == Ok::<UnaryOp, ExprParseErr>(op),
                None => r == Err::<UnaryOp, ExprParseErr>(ExprParseErr::InvalidOp),
            },
    {
        if value == '!' {
            Ok(UnaryOp::Not)
        } else if value == 'P' {
            Ok(UnaryOp::Primary)
        } else {
            Err(ExprParseErr::InvalidOp)
        }
    }
}

/// An error that occurs when parsing an expression.
#[derive(Clone, Copy, Debug, PartialEq, Eq, Structural)]
pub enum ExprParseErr {
    InvalidLiteral,
    InvalidOp,
    InvalidToken(char),
    UnclosedBracket,
}

/// A value for a beam colour.
#[derive(Debug)]
pub enum Expr {
    /// The input colour in the port with the given number.
    Port(usize),
    /// A literal colour.
    Clr(u8),
    /// An operation between two expressions.
    Op(Op, Box<Expr>, Box<Expr>),
    /// An operation on a single expression.
    UnaryOp(UnaryOp, Box<Expr>),
    /// No value.
    Null,
}

impl Clone for Expr {
    fn clone(&self) -> (e: Self)
        ensures
            e == *self,
        decreases self,
    {
        match self {
            Expr::Port(i) => Expr::Port(*i),
            Expr::Clr(v) => Expr::Clr(*v),
            Expr::Op(op, a, b) => Expr::Op(*op, Box::new((**a).clone()), Box::new((**b).clone())),
            Expr::UnaryOp(op, a) => Expr::UnaryOp(*op, Box::new((**a).clone())),
            Expr::Null => Expr::Null,
        }
    }
}

impl Default for Expr {
    fn default() -> (e: Expr)
        ensures
            e == Expr::Null,
    {
        Expr::Null
    }
}


impl Expr {
    /// Every port the expression reads is one of the eight ports.
    pub open spec fn ports_ok(self) -> bool
        decreases self,
    {
        match self {
            Expr::Port(i) => i < 8,
            Expr::Clr(_) => true,
            Expr::Op(_, a, b) => a.ports_ok() && b.ports_ok(),
            Expr::UnaryOp(_, a) => a.ports_ok(),
            Expr::Null => true,
        }
    }

    /// The expression reads only the eight ports and its literals are colours.
    pub open spec fn wf(self) -> bool
        decreases self,
    {
        match self {
            Expr::Port(i) => i < 8,
            Expr::Clr(v) => v < 8,
            Expr::Op(_, a, b) => a.wf() && b.wf(),
            Expr::UnaryOp(_, a) => a.wf(),
            Expr::Null => true,
        }
    }

    /// The value of the expression, given the colours at the ports of the object.
    pub open spec fn spec_eval(self, inpts: Seq<Clr>) -> u8
        decreases self,
    {
        match self {
            Expr::Port(i) => inpts[i as int].spec_bits(),
            Expr::Clr(v) => v,
            Expr::Op(op, a, b) => op.spec_eval(a.spec_eval(inpts), b.spec_eval(inpts)),
            Expr::UnaryOp(op, a) => op.spec_eval(a.spec_eval(inpts)),
            Expr::Null => 0,
        }
    }

    /// Evaluate this expression, given the ports of the object.
    pub fn eval(&self, inpts: &Clrs) -> (r: u8)
        requires
            self.ports_ok(),
        ensures
            r == self.spec_eval(inpts@),
        decreases self,
    {
        match self {
            Expr::Port(idx) => inpts[*idx].bits(),
            Expr::Clr(val) => *val,
            Expr::Op(op, e1, e2) => op.eval(e1.eval(inpts), e2.eval(inpts)),
            Expr::UnaryOp(op, e1) => op.eval(e1.eval(inpts)),
            Expr::Null => 0,
        }
    }

    /// Put `other` into the free place of `self`: it replaces a null expression, becomes the
    /// right operand of an operation or the operand of a unary operation, and is dropped by a
    /// port or a literal.
    pub open spec fn spec_chuck(self, other: Expr) -> Expr {
        match self {
            Expr::Null => other,
            Expr::Op(op, e1, _) => Expr::Op(op, e1, Box::new(other)),
            Expr::UnaryOp(op, _) => Expr::UnaryOp(op, Box::new(other)),
            _ => self,
        }
    }

    /// Chuck the provided expression into self.
    fn chuck(&mut self, other: Expr)
        ensures
            *final(self) == old(self).spec_chuck(other),
    {
        let mut cur = Expr::Null;
        std::mem::swap(&mut cur, self);
        *self = match cur {
            Expr::Null => other,
            Expr::Op(op, e1, _) => Expr::Op(op, e1, Box::new(other)),
            Expr::UnaryOp(op, _) => Expr::UnaryOp(op, Box::new(other)),
            c => c,
        };
    }
}

/// A digit naming one of the eight ports.
pub open spec fn is_port_digit(ch: char) -> bool {
    '0' <= ch && ch <= '7'
}

/// The port named by a digit.
pub open spec fn port_digit(ch: char) -> usize {
    (ch as u32 - '0' as u32) as usize
}

/// The index of the bracket that closes the brackets opened so far (`depth` of them), searching
/// the characters from `i` up to (not including) `hi`.
pub open spec fn close_from(chars: Seq<char>, hi: int, i: int, depth: int) -> Option<int>
    decreases hi - i,
{
    if i >= hi {
        None
    } else if chars[i] == '(' {
        close_from(chars, hi, i + 1, depth + 1)
    } else if chars[i] == ')' {
        if depth == 1 {
            Some(i)
        } else {
            close_from(chars, hi, i + 1, depth - 1)
        }
    } else {
        close_from(chars, hi, i + 1, depth)
    }
}

/// A closing bracket is found at or after the start of the search and before its end.
pub proof fn lemma_close_from_bounds(chars: Seq<char>, hi: int, i: int, depth: int)
    ensures
        close_from(chars, hi, i, depth) matches Some(m) ==> i <= m < hi,
    decreases hi - i,
{
    if i < hi {
        if chars[i] == '(' {
            lemma_close_from_bounds(chars, hi, i + 1, depth + 1);
        } else if chars[i] == ')' {
            if depth != 1 {
                lemma_close_from_bounds(chars, hi, i + 1, depth - 1);
            }
        } else {
            lemma_close_from_bounds(chars, hi, i + 1, depth);
        }
    }
}

/// The result of parsing the characters from `idx` up to `hi`, with `acc` the expression built
/// from the characters before. Characters are read from left to right: a unary operation, a
/// colour letter or a port digit is chucked into the expression so far; a binary operation
/// takes the expression so far as its left operand; a bracketed part is parsed on its own and
/// chucked in; anything else is an error.
pub open spec fn parse_from(chars: Seq<char>, hi: int, idx: int, acc: Expr) -> Result<Expr, ExprParseErr>
    decreases hi - idx,
{
    if idx >= hi {
        Ok(acc)
    } else {
        let ch = chars[idx];
        if UnaryOp::spec_from_char(ch) is Some {
            let u = UnaryOp::spec_from_char(ch)->0;
            parse_from(chars, hi, idx + 1, acc.spec_chuck(Expr::UnaryOp(u, Box::new(Expr::Null))))
        } else if Op::spec_from_char(ch) is Some {
            let op = Op::spec_from_char(ch)->0;
            parse_from(chars, hi, idx + 1, Expr::Op(op, Box::new(acc), Box::new(Expr::Null)))
        } else if Clr::spec_from_char(ch) is Some {
            let c = Clr::spec_from_char(ch)->0;
            parse_from(chars, hi, idx + 1, acc.spec_chuck(Expr::Clr(c.spec_bits())))
        } else if is_port_digit(ch) {
            parse_from(chars, hi, idx + 1, acc.spec_chuck(Expr::Port(port_digit(ch))))
        } else if ch == '(' {
            match close_from(chars, hi, idx + 1, 1) {
                None => Err(ExprParseErr::UnclosedBracket),
                Some(m) => {
                    proof {
                        lemma_close_from_bounds(chars, hi, idx + 1, 1);
                    }
                    match parse_from(chars, m, idx + 1, Expr::Null) {
                        Err(e) => Err(e),
                        Ok(inner) => parse_from(chars, hi, m + 1, acc.spec_chuck(inner)),
                    }
                },
            }
        } else {
            Err(ExprParseErr::InvalidToken(ch))
        }
    }
}

/// The result of parsing a whole sequence of characters as an expression.
pub open spec fn spec_parse(chars: Seq<char>) -> Result<Expr, ExprParseErr> {
    parse_from(chars, chars.len() as int, 0, Expr::Null)
}

/// Find the bracket closing the bracket just before `start`.
fn find_close(chars: &[char], hi: usize, start: usize) -> (r: Option<usize>)
    requires
        1 <= start <= hi <= chars@.len(),
    ensures
        r matches Some(m) ==> start <= m < hi && close_from(chars@, hi as int, start as int, 1) == Some(
            m as int,
        ),
        r is None ==> close_from(chars@, hi as int, start as int, 1) is None,
{
    proof {
        lemma_close_from_bounds(chars@, hi as int, start as int, 1);
    }
    let mut opened: usize = 1;
    let mut in_idx = start;
    while in_idx < hi
        invariant
            1 <= start <= in_idx <= hi <= chars@.len(),
            1 <= opened <= in_idx - start + 1,
            close_from(chars@, hi as int, start as int, 1) == close_from(
                chars@,
                hi as int,
                in_idx as int,
                opened as int,
            ),
        decreases hi - in_idx,
    {
        let ch = chars[in_idx];
        if ch == '(' {
            opened = opened + 1;
        } else if ch == ')' {
            if opened == 1 {
                return Some(in_idx);
            }
            opened = opened - 1;
        }
        in_idx = in_idx + 1;
    }
    None
}

/// Parse the characters from `lo` up to `hi` as an expression of their own.
fn parse_between(chars: &[char], lo: usize, hi: usize) -> (r: Result<Expr, ExprParseErr>)
    requires
        lo <= hi <= chars@.len(),
    ensures
        r == parse_from(chars@, hi as int, lo as int, Expr::Null),
    decreases hi - lo,
{
    let mut expr = Expr::Null;
    let mut idx = lo;
    while idx < hi
        invariant
            lo <= idx <= hi <= chars@.len(),
            parse_from(chars@, hi as int, lo as int, Expr::Null) == parse_from(
                chars@,
                hi as int,
                idx as int,
                expr,
            ),
        decreases hi - idx,
    {
        let ch = chars[idx];
        let ghost old_expr = expr;
        assert(ch == chars@[idx as int]);
        if let Ok(unop) = UnaryOp::from_char(ch) {
            expr.chuck(Expr::UnaryOp(unop, Box::new(Expr::Null)));
        } else if let Ok(op) = Op::from_char(ch) {
            expr = Expr::Op(op, Box::new(expr), Box::new(Expr::Null));
        } else if let Ok(clr) = Clr::from_char(ch) {
            expr.chuck(Expr::Clr(clr.bits()));
        } else if '0' <= ch && ch <= '7' {
            let d = (ch as u32 - '0' as u32) as usize;
            assert(d == port_digit(ch));
            expr.chuck(Expr::Port(d));
            assert(parse_from(chars@, hi as int, idx as int, old_expr) == parse_from(chars@, hi as int, idx + 1, expr));
        } else if ch == '(' {
            match find_close(chars, hi, idx + 1) {
                None => {
                    return Err(ExprParseErr::UnclosedBracket);
                },
                Some(m) => {
                    let inner = parse_between(chars, idx + 1, m);
                    match inner {
                        Err(e) => {
                            assert(parse_from(chars@, hi as int, idx as int, old_expr) == Err::<Expr, ExprParseErr>(e));
                            return Err(e);
                        },
                        Ok(inner) => {
                            expr.chuck(inner);
                            idx = m;
                        },
                    }
                },
            }
        } else {
            return Err(ExprParseErr::InvalidToken(ch));
        }
        idx = idx + 1;
    }
    Ok(expr)
}

/// The expression a single character stands for: a digit names a port, a space stands for
/// no value, and a colour letter for the colour; anything else is an invalid literal.
pub open spec fn spec_expr_of_char(c: char) -> Result<Expr, ExprParseErr> {
    if '0' <= c && c <= '9' {
        Ok(Expr::Port((c as u32 - 48) as usize))
    } else if c == ' ' {
        Ok(Expr::Null)
    } else if Clr::spec_from_char(c) is Some {
        Ok(Expr::Clr(Clr::spec_from_char(c)->0.spec_bits()))
    } else {
        Err(ExprParseErr::InvalidLiteral)
    }
}

impl Expr {
    /// The expression a single character stands for. The digits 8 and 9 name no port.
    pub fn from_char(value: char) -> (r: Result<Expr, ExprParseErr>)
        requires
            value != '8' && value != '9',
        ensures
            r == spec_expr_of_char(value),
    {
        if '0' <= value && value <= '7' {
            Ok(Expr::Port((value as u8 - 48) as usize))
        } else if value == ' ' {
            Ok(Expr::Null)
        } else {
            match Clr::from_char(value) {
                Ok(c) => Ok(Expr::Clr(c.bits())),
                Err(_) => Err(ExprParseErr::InvalidLiteral),
            }
        }
    }
}

impl std::str::FromStr for Expr {
    type Err = ExprParseErr;

    fn from_str(s: &str) -> (r: Result<Self, Self::Err>)
        ensures
            r == spec_parse(s@),
    {
        Expr::parse_str(s)
    }
}

impl Expr {
    /// Parses a string into an expression.
    pub fn parse_str(s: &str) -> (r: Result<Self, ExprParseErr>)
        ensures
            r == spec_parse(s@),
    {
        let chars = chars_of(s);
        Expr::char_parse(chars.as_slice())
    }

    /// Parses a sequence of characters into an expression.
    pub fn char_parse(chars: &[char]) -> (r: Result<Self, ExprParseErr>)
        ensures
            r == spec_parse(chars@),
    {
        parse_between(chars, 0, chars.len())
    }
}

/// Parsing keeps expressions well formed: every expression a parse produces reads only the
/// eight ports and has colours as literals.
pub proof fn lemma_parse_from_wf(chars: Seq<char>, hi: int, idx: int, acc: Expr)
    requires
        acc.wf(),
    ensures
        parse_from(chars, hi, idx, acc) matches Ok(e) ==> e.wf(),
    decreases hi - idx,
{
    if idx < hi {
        let ch = chars[idx];
        lemma_leaves_wf(UnaryOp::Not, Op::Or, acc, Clr::Black, ch);
        if UnaryOp::spec_from_char(ch) is Some {
            let u = UnaryOp::spec_from_char(ch)->0;
            lemma_leaves_wf(u, Op::Or, acc, Clr::Black, ch);
            lemma_chuck_wf(acc, Expr::UnaryOp(u, Box::new(Expr::Null)));
            lemma_parse_from_wf(chars, hi, idx + 1, acc.spec_chuck(Expr::UnaryOp(u, Box::new(Expr::Null))));
        } else if Op::spec_from_char(ch) is Some {
            let op = Op::spec_from_char(ch)->0;
            lemma_leaves_wf(UnaryOp::Not, op, acc, Clr::Black, ch);
            lemma_parse_from_wf(chars, hi, idx + 1, Expr::Op(op, Box::new(acc), Box::new(Expr::Null)));
        } else if Clr::spec_from_char(ch) is Some {
            let c = Clr::spec_from_char(ch)->0;
            lemma_leaves_wf(UnaryOp::Not, Op::Or, acc, c, ch);
            lemma_chuck_wf(acc, Expr::Clr(c.spec_bits()));
            lemma_parse_from_wf(chars, hi, idx + 1, acc.spec_chuck(Expr::Clr(c.spec_bits())));
        } else if is_port_digit(ch) {
            lemma_chuck_wf(acc, Expr::Port(port_digit(ch)));
            lemma_parse_from_wf(chars, hi, idx + 1, acc.spec_chuck(Expr::Port(port_digit(ch))));
        } else if ch == '(' {
            lemma_close_from_bounds(chars, hi, idx + 1, 1);
            match close_from(chars, hi, idx + 1, 1) {
                None => {},
                Some(m) => {
                    lemma_parse_from_wf(chars, m, idx + 1, Expr::Null);
                    match parse_from(chars, m, idx + 1, Expr::Null) {
                        Err(e) => {},
                        Ok(inner) => {
                            lemma_chuck_wf(acc, inner);
                            lemma_parse_from_wf(chars, hi, m + 1, acc.spec_chuck(inner));
                        },
                    }
                },
            }
        }
    }
}

/// Chucking a well formed expression into a well formed expression keeps it well formed.
pub proof fn lemma_chuck_wf(acc: Expr, other: Expr)
    requires
        acc.wf(),
        other.wf(),
    ensures
        acc.spec_chuck(other).wf(),
{
    match acc {
        Expr::Op(op, e1, _) => {
            assert(e1.wf());
        },
        _ => {},
    }
}

proof fn lemma_leaves_wf(u: UnaryOp, op: Op, acc: Expr, c: Clr, ch: char)
    requires
        acc.wf(),
    ensures
        Expr::UnaryOp(u, Box::new(Expr::Null)).wf(),
        Expr::Op(op, Box::new(acc), Box::new(Expr::Null)).wf(),
        Expr::Clr(c.spec_bits()).wf(),
        is_port_digit(ch) ==> Expr::Port(port_digit(ch)).wf(),
{
    assert(Expr::Null.wf());
    lemma_bits_lt(c);
}

/// Every expression parsed from text is well formed.
pub proof fn lemma_parse_wf(chars: Seq<char>)
    ensures
        spec_parse(chars) matches Ok(e) ==> e.wf(),
{
    lemma_parse_from_wf(chars, chars.len() as int, 0, Expr::Null);
}

/// A well formed expression reads only the eight ports and evaluates to a colour.
pub proof fn lemma_wf_eval(e: Expr, inpts: Seq<Clr>)
    requires
        e.wf(),
    ensures
        e.ports_ok(),
        e.spec_eval(inpts) < 8,
    decreases e,
{
    match e {
        Expr::Port(i) => {
            lemma_bits_lt(inpts[i as int]);
        },
        Expr::Clr(_) => {},
        Expr::Op(op, a, b) => {
            lemma_wf_eval(*a, inpts);
            lemma_wf_eval(*b, inpts);
            let x = a.spec_eval(inpts);
            let y = b.spec_eval(inpts);
            assert(x < 8 && y < 8 ==> (x | y) < 8 && (x & y) < 8 && (x ^ y) < 8) by (bit_vector);
        },
        Expr::UnaryOp(op, a) => {
            lemma_wf_eval(*a, inpts);
            let x = a.spec_eval(inpts);
            assert(x < 8 ==> (7u8 ^ x) < 8) by (bit_vector);
        },
        Expr::Null => {},
    }
}

proof fn lemma_bits_lt(c: Clr)
    ensures
        c.spec_bits() < 8,
{
}


/// The port a port moves to when its object is rotated 90 degrees clockwise.
pub open spec fn spec_rot_port(i: usize) -> usize {
    if i < 8 {
        ((i + 2) % 8) as usize
    } else {
        i
    }
}

impl Expr {
    /// The same expression for the object rotated 90 degrees clockwise: every port it reads
    /// moves two places on.
    pub open spec fn spec_rotated(self) -> Expr
        decreases self,
    {
        match self {
            Expr::Port(i) => Expr::Port(spec_rot_port(i)),
            Expr::Clr(v) => Expr::Clr(v),
            Expr::Op(op, a, b) => Expr::Op(op, Box::new(a.spec_rotated()), Box::new(b.spec_rotated())),
            Expr::UnaryOp(op, a) => Expr::UnaryOp(op, Box::new(a.spec_rotated())),
            Expr::Null => Expr::Null,
        }
    }

    /// The same expression for the object rotated 90 degrees clockwise.
    pub fn rotated(&self) -> (e: Expr)
        ensures
            e == self.spec_rotated(),
        decreases self,
    {
        match self {
            Expr::Port(i) => {
                if *i < 8 {
                    Expr::Port((*i + 2) % 8)
                } else {
                    Expr::Port(*i)
                }
            },
            Expr::Clr(v) => Expr::Clr(*v),
            Expr::Op(op, a, b) => Expr::Op(*op, Box::new(a.rotated()), Box::new(b.rotated())),
            Expr::UnaryOp(op, a) => Expr::UnaryOp(*op, Box::new(a.rotated())),
            Expr::Null => Expr::Null,
        }
    }
}

/// The colours at the ports of an object after rotating it 90 degrees clockwise: the colour
/// at port `k` moves to port `k + 2`.
pub open spec fn spec_rot_clrs(c: Seq<Clr>) -> Seq<Clr> {
    Seq::new(8, |k: int| c[(k + 6) % 8])
}

/// A single input or input direction for an entity.
#[derive(Debug)]
pub struct Port {
    /// Output of the port. Cannot output anything if the input is anything other than nothing.
    pub out: Expr,
}

impl Clone for Port {
    fn clone(&self) -> (p: Self)
        ensures
            p == *self,
    {
        Port { out: self.out.clone() }
    }
}

impl Port {
    /// Create a port with the given expression.
    pub fn new(out: Expr) -> (p: Self)
        ensures
            p.out == out,
    {
        Self { out }
    }
}

/// A group of ports for an entity.
#[derive(Debug)]
pub struct PortGrp(pub [Port; 8]);

impl Clone for PortGrp {
    fn clone(&self) -> (g: Self)
        ensures
            g == *self,
    {
        let g = PortGrp([
            self.0[0].clone(),
            self.0[1].clone(),
            self.0[2].clone(),
            self.0[3].clone(),
            self.0[4].clone(),
            self.0[5].clone(),
            self.0[6].clone(),
            self.0[7].clone(),
        ]);
        assert(g.0 =~= self.0);
        g
    }
}

impl PortGrp {
    /// The expressions of the eight ports.
    pub open spec fn exprs(self) -> Seq<Expr> {
        Seq::new(8, |i: int| self.0@[i].out)
    }

    /// Every port's expression is well formed.
    pub open spec fn wf(self) -> bool {
        forall|i: int| 0 <= i < 8 ==> #[trigger] self.0@[i].out.wf()
    }

    /// The colour leaving port `i`, given the colours arriving at the ports: nothing leaves a
    /// port that a beam arrives at; otherwise the port's expression decides.
    pub open spec fn spec_out(self, inpts: Seq<Clr>, i: int) -> Clr {
        if inpts[i] != Clr::Black {
            Clr::Black
        } else {
            Clr::spec_from_bits(self.0@[i].out.spec_eval(inpts))
        }
    }

    /// The colour leaving port `i`.
    fn out_of(&self, inpts: &Clrs, i: usize) -> (c: Clr)
        requires
            self.wf(),
            i < 8,
        ensures
            c == self.spec_out(inpts@, i as int),
    {
        if inpts[i] != Clr::Black {
            Clr::Black
        } else {
            proof {
                assert(self.0@[i as int].out.wf());
                lemma_wf_eval(self.0@[i as int].out, inpts@);
            }
            Clr::from_u8(self.0[i].out.eval(inpts))
        }
    }

    /// Return the output colours of this port group.
    pub fn determine(&self, inpts: &Clrs) -> (outs: Clrs)
        requires
            self.wf(),
        ensures
            forall|i: int| 0 <= i < 8 ==> #[trigger] outs@[i] == self.spec_out(inpts@, i),
    {
        let outs = [
            self.out_of(inpts, 0),
            self.out_of(inpts, 1),
            self.out_of(inpts, 2),
            self.out_of(inpts, 3),
            self.out_of(inpts, 4),
            self.out_of(inpts, 5),
            self.out_of(inpts, 6),
            self.out_of(inpts, 7),
        ];
        outs
    }

    /// Build a port group from the first eight of the given expressions.
    pub fn from_exprs(exprs: Vec<Expr>) -> (g: Self)
        requires
            exprs@.len() >= 8,
        ensures
            forall|i: int| 0 <= i < 8 ==> #[trigger] g.0@[i].out == exprs@[i],
    {
        let mut exprs = exprs;
        let ghost orig = exprs@;
        let p0 = Port::new(exprs.remove(0));
        let p1 = Port::new(exprs.remove(0));
        let p2 = Port::new(exprs.remove(0));
        let p3 = Port::new(exprs.remove(0));
        let p4 = Port::new(exprs.remove(0));
        let p5 = Port::new(exprs.remove(0));
        let p6 = Port::new(exprs.remove(0));
        let p7 = Port::new(exprs.remove(0));
        let g = PortGrp([p0, p1, p2, p3, p4, p5, p6, p7]);
        assert(g.0@[0].out == orig[0]);
        g
    }

    /// The same group rotated 90 degrees clockwise: port `k` takes the place of port `k + 2`.
    pub open spec fn spec_rotated(self) -> PortGrp {
        PortGrp(
            [
                Port { out: self.0@[6].out.spec_rotated() },
                Port { out: self.0@[7].out.spec_rotated() },
                Port { out: self.0@[0].out.spec_rotated() },
                Port { out: self.0@[1].out.spec_rotated() },
                Port { out: self.0@[2].out.spec_rotated() },
                Port { out: self.0@[3].out.spec_rotated() },
                Port { out: self.0@[4].out.spec_rotated() },
                Port { out: self.0@[5].out.spec_rotated() },
            ],
        )
    }

    /// Rotate the group 90 degrees clockwise.
    pub fn rotate_90(&mut self)
        ensures
            *final(self) == old(self).spec_rotated(),
            forall|k: int|
                0 <= k < 8 ==> #[trigger] final(self).0@[k].out == old(self).0@[(k + 6) % 8].out.spec_rotated(),
    {
        let ghost target = self.spec_rotated();
        let g = [
            Port::new(self.0[6].out.rotated()),
            Port::new(self.0[7].out.rotated()),
            Port::new(self.0[0].out.rotated()),
            Port::new(self.0[1].out.rotated()),
            Port::new(self.0[2].out.rotated()),
            Port::new(self.0[3].out.rotated()),
            Port::new(self.0[4].out.rotated()),
            Port::new(self.0[5].out.rotated()),
        ];
        assert(g =~= target.0);
        self.0 = g;
    }
}


/// Rotating an expression four times gives it back.
pub proof fn lemma_expr_rotate4(e: Expr)
    ensures
        e.spec_rotated().spec_rotated().spec_rotated().spec_rotated() == e,
    decreases e,
{
    match e {
        Expr::Op(op, a, b) => {
            lemma_expr_rotate4(*a);
            lemma_expr_rotate4(*b);
        },
        Expr::UnaryOp(op, a) => {
            lemma_expr_rotate4(*a);
        },
        _ => {},
    }
}

/// Rotating keeps an expression well formed.
pub proof fn lemma_rotated_wf(e: Expr)
    ensures
        e.wf() ==> e.spec_rotated().wf(),
        e.ports_ok() ==> e.spec_rotated().ports_ok(),
    decreases e,
{
    match e {
        Expr::Op(op, a, b) => {
            lemma_rotated_wf(*a);
            lemma_rotated_wf(*b);
        },
        Expr::UnaryOp(op, a) => {
            lemma_rotated_wf(*a);
        },
        _ => {},
    }
}

/// A rotated expression reads the rotated ports to the same value.
pub proof fn lemma_eval_rotated(e: Expr, c: Seq<Clr>)
    requires
        e.ports_ok(),
        c.len() == 8,
    ensures
        e.spec_rotated().spec_eval(spec_rot_clrs(c)) == e.spec_eval(c),
    decreases e,
{
    match e {
        Expr::Port(i) => {
            assert(spec_rot_clrs(c)[((i + 2) % 8) as int] == c[i as int]);
        },
        Expr::Op(op, a, b) => {
            lemma_eval_rotated(*a, c);
            lemma_eval_rotated(*b, c);
        },
        Expr::UnaryOp(op, a) => {
            lemma_eval_rotated(*a, c);
        },
        _ => {},
    }
}

/// Rotating a port group four times gives it back.
pub proof fn lemma_group_rotate4(g: PortGrp)
    ensures
        g.spec_rotated().spec_rotated().spec_rotated().spec_rotated() == g,
{
    let r = g.spec_rotated().spec_rotated().spec_rotated().spec_rotated();
    assert forall|k: int| 0 <= k < 8 implies r.0@[k] == g.0@[k] by {
        lemma_expr_rotate4(g.0@[k].out);
    }
    assert(r.0 =~= g.0);
}

/// Rotating an object 90 degrees clockwise, together with the beams that arrive at it, rotates
/// the beams that leave it: what leaves port `k` of the rotated object is what left port
/// `k - 2` of the unrotated one.
pub proof fn lemma_determine_rotated(g: PortGrp, inpts: Seq<Clr>, k: int)
    requires
        g.wf(),
        inpts.len() == 8,
        0 <= k < 8,
    ensures
        g.spec_rotated().wf(),
        g.spec_rotated().spec_out(spec_rot_clrs(inpts), k) == g.spec_out(inpts, (k + 6) % 8),
{
    let r = g.spec_rotated();
    assert forall|i: int| 0 <= i < 8 implies #[trigger] r.0@[i].out.wf() by {
        assert(g.0@[(i + 6) % 8].out.wf());
        lemma_rotated_wf(g.0@[(i + 6) % 8].out);
    }
    let e = g.0@[(k + 6) % 8].out;
    assert(e.wf());
    lemma_wf_eval(e, inpts);
    lemma_eval_rotated(e, inpts);
}


/// `Primary` keeps exactly the primary colours: red, green and blue come out as they went in,
/// every other colour (black and the mixed ones) comes out as black.
pub proof fn lemma_primary_keeps_primaries(c: Clr)
    ensures
        UnaryOp::Primary.spec_eval(c.spec_bits()) == (if c == Clr::Red || c == Clr::Green || c == Clr::Blue {
            c.spec_bits()
        } else {
            0u8
        }),
{
}

/// `Primary` on any value: a value with exactly one of the three colour bits set, and no
/// other bit, is kept; anything else gives 0.
pub proof fn lemma_primary_single_bit(v: u8)
    ensures
        UnaryOp::Primary.spec_eval(v) == (if v < 8 && v != 0 && v & ((v - 1) as u8) == 0 { v } else { 0u8 }),
{
    assert(v < 8 && v != 0 && v & ((v - 1) as u8) == 0 <==> (v == 1 || v == 2 || v == 4)) by (bit_vector);
}

/// `Not` gives the complementary colour: the colour bits that are missing, so that applying it
/// twice gives the colour back.
pub proof fn lemma_not_complements(c: Clr)
    ensures
        UnaryOp::Not.spec_eval(c.spec_bits()) == 7 - c.spec_bits(),
        UnaryOp::Not.spec_eval(UnaryOp::Not.spec_eval(c.spec_bits())) == c.spec_bits(),
{
    let v = c.spec_bits();
    crate::beam::lemma_bits_roundtrip(c, 0);
    assert(v < 8 ==> (0b111u8 ^ v) as u8 == 7 - v && (0b111u8 ^ ((0b111u8 ^ v) as u8)) as u8 == v) by (bit_vector);
}
} // verus!
