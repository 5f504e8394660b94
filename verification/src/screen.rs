//! The layout of what is drawn on the terminal: centring, text lines, warnings and the
//! sections of the puzzle list.

use vstd::prelude::*;
use crate::style::{Color, StyleCh};
use crate::text::{chars_of, string_from_chars};
use crate::loader::puzzles::{PuzzlePack, count_done, is_done};
use std::collections::HashSet;

verus! {

/// Turn a width into a centred x position on the terminal. The width is taken modulo 65536,
/// as a 16 bit number.
pub fn centre(wid: usize) -> (x: i32)
    requires
        (wid % 65536) / 2 <= 60,
    ensures
        x == 60 - (wid % 65536) / 2,
{
    let w: u16 = (wid % 65536) as u16;
    (crate::TERMINAL_WID / 2 - w / 2) as i32
}

/// A line of text in a colour: a leading blank, the text, then blanks up to `len` characters.
pub open spec fn spec_line(clr: Color, txt: Seq<char>, len: int) -> Seq<StyleCh> {
    let body = seq![StyleCh { content: ' ', fg: None, bg: None }] + txt.map_values(|c: char| coloured(c, clr));
    if body.len() < len {
        body + Seq::new((len - body.len()) as nat, |i: int| StyleCh { content: ' ', fg: None, bg: None })
    } else {
        body
    }
}

/// The character in the colour.
pub open spec fn coloured(c: char, clr: Color) -> StyleCh {
    StyleCh { content: c, fg: Some(clr), bg: None }
}

/// Colours the text with the given colour as a line of a window. Ensures at least `len`
/// styled characters are in the line.
pub fn add_line(clr: Color, txt: &str, len: usize) -> (line: Vec<StyleCh>)
    ensures
        line@ == spec_line(clr, txt@, len as int),
{
    let cs = chars_of(txt);
    let mut line: Vec<StyleCh> = Vec::new();
    line.push(StyleCh::plain(' '));
    let mut i: usize = 0;
    while i < cs.len()
        invariant
            i <= cs@.len(),
            cs@ == txt@,
            line@ == seq![StyleCh { content: ' ', fg: None, bg: None }] + cs@.take(i as int).map_values(|c: char| coloured(c, clr)),
        decreases cs@.len() - i,
    {
        line.push(StyleCh::with(cs[i], clr));
        i = i + 1;
        assert(line@ =~= seq![StyleCh { content: ' ', fg: None, bg: None }] + cs@.take(i as int).map_values(|c: char| coloured(c, clr)));
    }
    assert(cs@.take(cs@.len() as int) =~= cs@);
    let ghost body = line@;
    let line_len = line.len();
    if line_len < len {
        let mut k: usize = 0;
        while k < len - line_len
            invariant
                line_len < len,
                line_len == body.len(),
                k <= len - line_len,
                line@ == body + Seq::new(k as nat, |i: int| StyleCh { content: ' ', fg: None, bg: None }),
            decreases len - line_len - k,
        {
            line.push(StyleCh::plain(' '));
            k = k + 1;
            assert(line@ =~= body + Seq::new(k as nat, |i: int| StyleCh { content: ' ', fg: None, bg: None }));
        }
    }
    line
}

/// Width of a warning.
pub const WARN_WID: usize = 20;

/// The lines a message is shown in: a line ends after the character at each positive multiple
/// of `WARN_WID - 2`, and after the character whose position is one less than the message's
/// length in bytes.
pub open spec fn wrapped(cs: Seq<char>, blen: int, i: int, cur: Seq<char>) -> Seq<Seq<char>>
    decreases cs.len() - i,
{
    if i < 0 || i >= cs.len() {
        seq![]
    } else {
        let cur2 = cur.push(cs[i]);
        if (i % 18 == 0 && i != 0) || i == blen - 1 {
            seq![cur2] + wrapped(cs, blen, i + 1, seq![])
        } else {
            wrapped(cs, blen, i + 1, cur2)
        }
    }
}

/// The lines a warning shows its message in.
pub fn warn_lines(msg: &str) -> (lines: Vec<String>)
    ensures
        lines@.len() == wrapped(msg@, vstd::utf8::encode_utf8(msg@).len() as int, 0, seq![]).len(),
        forall|k: int| 0 <= k < lines@.len() ==> #[trigger] lines@[k]@ == wrapped(msg@, vstd::utf8::encode_utf8(msg@).len() as int, 0, seq![])[k],
{
    let blen = msg.as_bytes().len();
    let cs = chars_of(msg);
    let ghost all = wrapped(msg@, blen as int, 0, seq![]);
    let mut lines: Vec<String> = Vec::new();
    let mut cur: Vec<char> = Vec::new();
    let mut n: usize = 0;
    assert(all =~= Seq::<Seq<char>>::empty() + wrapped(cs@, blen as int, 0, cur@)) by {
        assert(cur@ =~= Seq::<char>::empty());
    }
    while n < cs.len()
        invariant
            n <= cs@.len(),
            cs@ == msg@,
            blen == vstd::utf8::encode_utf8(msg@).len(),
            all == wrapped(msg@, blen as int, 0, seq![]),
            lines@.len() <= all.len(),
            forall|k: int| 0 <= k < lines@.len() ==> #[trigger] lines@[k]@ == all[k],
            all == all.take(lines@.len() as int) + wrapped(cs@, blen as int, n as int, cur@),
        decreases cs@.len() - n,
    {
        let ghost m = lines@.len() as int;
        let ghost rest = wrapped(cs@, blen as int, n as int, cur@);
        cur.push(cs[n]);
        if (n % 18 == 0 && n != 0) || (blen > 0 && n == blen - 1) {
            proof {
                assert(rest == seq![cur@] + wrapped(cs@, blen as int, n + 1, seq![]));
                assert(all[m] == cur@);
            }
            lines.push(string_from_chars(cur.as_slice()));
            cur = Vec::new();
            proof {
                assert(cur@ =~= Seq::<char>::empty());
                assert(all.take(m + 1) =~= all.take(m) + seq![all[m]]);
                assert(all == all.take(m + 1) + wrapped(cs@, blen as int, n + 1, cur@));
            }
        } else {
            proof {
                assert(rest == wrapped(cs@, blen as int, n + 1, cur@));
            }
        }
        n = n + 1;
    }
    proof {
        assert(all =~= all.take(lines@.len() as int));
    }
    lines
}

/// The height of a warning showing a message.
pub fn warn_height(msg: &str) -> (h: usize)
    ensures
        h == vstd::utf8::encode_utf8(msg@).len() / 18 + 5,
{
    let blen = msg.as_bytes().len();
    blen / (WARN_WID - 2) + 5
}

/// Whether a puzzle list shows a section heading before the puzzle at index `n`, and which:
/// section 0 starts the list, section 1 comes after 3 puzzles, and each later one after 999
/// more.
pub open spec fn heading_before(n: int) -> Option<int> {
    if n == 0 {
        Some(0)
    } else if n >= 3 && (n - 3) % 999 == 0 {
        Some(1 + (n - 3) / 999)
    } else {
        None
    }
}

/// The headings of a list of `count` puzzles: for each puzzle, the section whose heading comes
/// just before it, if one does. None when not sectioning.
pub fn section_headings(count: usize, sectioning: bool) -> (h: Vec<Option<u32>>)
    requires
        sectioning ==> count <= 3999,
    ensures
        h@.len() == count,
        forall|n: int| 0 <= n < count ==> #[trigger] h@[n] == if sectioning {
            match heading_before(n) {
                Some(s) => Some(s as u32),
                None => None,
            }
        } else {
            None::<u32>
        },
{
    let mut h: Vec<Option<u32>> = Vec::new();
    if !sectioning {
        let mut n: usize = 0;
        while n < count
            invariant
                n <= count,
                !sectioning,
                h@.len() == n,
                forall|k: int| 0 <= k < n ==> #[trigger] h@[k] == None::<u32>,
            decreases count - n,
        {
            h.push(None);
            n = n + 1;
        }
        return h;
    }
    let mut last: u32 = 0;
    let mut size: usize = 0;
    let mut n: usize = 0;
    while n < count
        invariant
            n <= count,
            sectioning,
            count <= 3999,
            h@.len() == n,
            n > 0 ==> last == if n <= 3 { 0 } else { 1 + (n - 4) / 999 },
            n > 0 ==> size == if n <= 3 { n as int } else { (n - 4) % 999 + 1 },
            n == 0 ==> last == 0 && size == 0,
            forall|k: int| 0 <= k < n ==> #[trigger] h@[k] == if sectioning {
                match heading_before(k) {
                    Some(s) => Some(s as u32),
                    None => None,
                }
            } else {
                None::<u32>
            },
        decreases count - n,
    {
        let this: usize = if n == 0 { 0 } else if last == 0 { 3 } else { 999 };
        if n == 0 {
            h.push(if sectioning { Some(0) } else { None });
            size = 1;
        } else if this == size {
            last = last + 1;
            h.push(if sectioning { Some(last) } else { None });
            size = 1;
        } else {
            h.push(None);
            size = size + 1;
        }
        n = n + 1;
    }
    h
}

/// The colour of a section's heading.
pub fn section_clr(s: u32) -> (c: Color)
    requires
        s < 5,
    ensures
        c == if s == 0 { Color::Green } else if s == 1 { Color::Yellow } else if s == 2 { Color::Red } else if s == 3 {
            Color::DarkRed
        } else {
            Color::DarkMagenta
        },
{
    if s == 0 {
        Color::Green
    } else if s == 1 {
        Color::Yellow
    } else if s == 2 {
        Color::Red
    } else if s == 3 {
        Color::DarkRed
    } else {
        Color::DarkMagenta
    }
}

/// The number of completed puzzles of a pack.
pub fn completed_count(pck: &PuzzlePack, completion: &HashSet<u128>) -> (n: usize)
    ensures
        n == count_done(pck.pzls@, completion@, 0, pck.pzls@.len() as int),
{
    let mut n: usize = 0;
    let mut i: usize = 0;
    while i < pck.pzls.len()
        invariant
            i <= pck.pzls@.len(),
            n == count_done(pck.pzls@, completion@, 0, i as int),
            n <= i,
        decreases pck.pzls@.len() - i,
    {
        if is_done(completion, pck.pzls[i].id) {
            n = n + 1;
        }
        i = i + 1;
    }
    n
}

} // verus!
