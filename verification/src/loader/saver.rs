//! The record of completed puzzles, and the text that puzzle packs are saved as.

use vstd::prelude::*;
use vstd::std_specs::iter::IteratorSpec;
use std::collections::HashSet;
use vstd::string::StringExecFns;
use crate::text::{spec_lines, lines, chars_of, spec_trim, trim, spec_split, split, is_white_space,
    lemma_split_cons, lemma_split_none, lemma_lines_single, lead_ws, trail_ws, push_char, string_from_chars};
use crate::digest::{text_id, spec_text_id};
use crate::text::{terminated, lemma_terminated_append};
use crate::loader::puzzles::reread::{row_texts, lemma_rows_text_terminated};
use crate::loader::puzzles::{Puzzle, PuzzlePack, rows_text, writable, grid_text};

verus! {

/// The identifier of the pack whose puzzles are the standard ones.
pub const SUPER_SECRET_NAME: u128 = 0xd39b1b9ee3753f659fb0d1900b2136d1;

/// The value of a hexadecimal digit, if the character is one.
pub open spec fn hex_digit_val(c: char) -> Option<nat> {
    if '0' <= c && c <= '9' {
        Some((c as nat - 48) as nat)
    } else if 'a' <= c && c <= 'f' {
        Some((c as nat - 87) as nat)
    } else if 'A' <= c && c <= 'F' {
        Some((c as nat - 55) as nat)
    } else {
        None
    }
}

/// Every character is a hexadecimal digit.
pub open spec fn all_hex(s: Seq<char>) -> bool {
    forall|i: int| 0 <= i < s.len() ==> (#[trigger] hex_digit_val(s[i])) is Some
}

/// The number that hexadecimal digits stand for, most significant first.
pub open spec fn hex_val(s: Seq<char>) -> nat
    decreases s.len(),
{
    if s.len() == 0 {
        0
    } else {
        hex_val(s.drop_last()) * 16 + hex_digit_val(s.last())->0
    }
}

/// A number written in hexadecimal (`u128::from_str_radix` with radix 16): an optional `+`,
/// then at least one digit, the value fitting in 128 bits.
pub open spec fn spec_parse_hex(s: Seq<char>) -> Option<u128> {
    let d = if s.len() > 0 && s[0] == '+' { s.drop_first() } else { s };
    if d.len() > 0 && all_hex(d) && hex_val(d) <= u128::MAX {
        Some(hex_val(d) as u128)
    } else {
        None
    }
}

/// The value of a hexadecimal digit.
fn hex_digit(c: char) -> (r: Option<u8>)
    ensures
        match hex_digit_val(c) {
            Some(v) => r == Some(v as u8),
            None => r is None,
        },
{
    if '0' <= c && c <= '9' {
        Some((c as u8) - 48)
    } else if 'a' <= c && c <= 'f' {
        Some((c as u8) - 87)
    } else if 'A' <= c && c <= 'F' {
        Some((c as u8) - 55)
    } else {
        None
    }
}

/// Read a number written in hexadecimal.
pub fn parse_hex(s: &[char]) -> (r: Option<u128>)
    ensures
        r == spec_parse_hex(s@),
{
    let start: usize = if s.len() > 0 && s[0] == '+' { 1 } else { 0 };
    let ghost d = if s@.len() > 0 && s@[0] == '+' { s@.drop_first() } else { s@ };
    assert(d =~= s@.subrange(start as int, s@.len() as int));
    let mut v: u128 = 0;
    let mut over = false;
    let mut i: usize = start;
    while i < s.len()
        invariant
            start <= i <= s@.len(),
            d == s@.subrange(start as int, s@.len() as int),
            d == (if s@.len() > 0 && s@[0] == '+' { s@.drop_first() } else { s@ }),
            all_hex(s@.subrange(start as int, i as int)),
            !over ==> v == hex_val(s@.subrange(start as int, i as int)),
            over ==> hex_val(s@.subrange(start as int, i as int)) > u128::MAX,
        decreases s.len() - i,
    {
        let ghost t = s@.subrange(start as int, i + 1);
        assert(t.drop_last() =~= s@.subrange(start as int, i as int));
        match hex_digit(s[i]) {
            None => {
                assert(d[i - start] == s@[i as int]);
                assert(hex_digit_val(d[i - start]) is None);
                assert(!all_hex(d));
                assert(spec_parse_hex(s@) is None);
                return None;
            },
            Some(dg) => {
                if !over {
                    match v.checked_mul(16) {
                        None => {
                            over = true;
                        },
                        Some(m) => {
                            match m.checked_add(dg as u128) {
                                None => {
                                    over = true;
                                },
                                Some(nv) => {
                                    v = nv;
                                },
                            }
                        },
                    }
                }
            },
        }
        i = i + 1;
        assert(all_hex(s@.subrange(start as int, i as int))) by {
            assert forall|k: int| 0 <= k < t.len() implies (#[trigger] hex_digit_val(t[k])) is Some by {
                if k < t.len() - 1 {
                    assert(t[k] == s@.subrange(start as int, i - 1)[k]);
                }
            }
        }
    }
    if i == start || over {
        None
    } else {
        Some(v)
    }
}

/// The hexadecimal digit of a number below 16, in lower case.
pub open spec fn hex_char(d: nat) -> char {
    if d < 10 {
        (48 + d) as char
    } else {
        (87 + d) as char
    }
}

/// A number in lower case hexadecimal without leading zeros (`{:x}`).
pub open spec fn spec_hex(v: nat) -> Seq<char>
    decreases v,
{
    if v < 16 {
        seq![hex_char(v)]
    } else {
        spec_hex(v / 16).push(hex_char(v % 16))
    }
}

proof fn lemma_hex_char(d: nat)
    requires
        d < 16,
    ensures
        hex_digit_val(hex_char(d)) == Some(d),
        !is_white_space(hex_char(d)),
        hex_char(d) != '+',
{
    if d < 10 {
        assert((48 + d) as char as nat == 48 + d);
    } else {
        assert((87 + d) as char as nat == 87 + d);
    }
}

/// The digits of a number in hexadecimal read back as the number, and are neither spaces,
/// line feeds nor other white space.
pub proof fn lemma_hex(v: nat)
    ensures
        spec_hex(v).len() > 0,
        all_hex(spec_hex(v)),
        hex_val(spec_hex(v)) == v,
        forall|i: int| 0 <= i < spec_hex(v).len() ==> !is_white_space(#[trigger] spec_hex(v)[i]) && spec_hex(v)[i] != '+',
    decreases v,
{
    if v < 16 {
        lemma_hex_char(v);
        assert(spec_hex(v).drop_last() =~= Seq::<char>::empty());
        assert(hex_val(spec_hex(v)) == hex_val(spec_hex(v).drop_last()) * 16 + hex_digit_val(spec_hex(v).last())->0);
    } else {
        lemma_hex_char(v % 16);
        lemma_hex(v / 16);
        let s = spec_hex(v);
        assert(s.drop_last() =~= spec_hex(v / 16));
        assert(s.last() == hex_char(v % 16));
        assert(hex_val(s) == hex_val(s.drop_last()) * 16 + hex_digit_val(s.last())->0);
        assert(hex_val(s) == (v / 16) * 16 + v % 16);
        assert forall|i: int| 0 <= i < s.len() implies (#[trigger] hex_digit_val(s[i])) is Some by {
            if i < s.len() - 1 {
                assert(s[i] == spec_hex(v / 16)[i]);
            }
        }
        assert forall|i: int| 0 <= i < s.len() implies !is_white_space(#[trigger] s[i]) && s[i] != '+' by {
            if i < s.len() - 1 {
                assert(s[i] == spec_hex(v / 16)[i]);
            }
        }
    }
}

/// The lower case hexadecimal digit of a number below 16.
fn hex_digit_char(d: u8) -> (c: char)
    requires
        d < 16,
    ensures
        c == hex_char(d as nat),
{
    if d < 10 {
        (48 + d) as char
    } else {
        (87 + d) as char
    }
}

/// Write a number in lower case hexadecimal without leading zeros.
pub fn hex_string(v: u128) -> (r: Vec<char>)
    ensures
        r@ == spec_hex(v as nat),
    decreases v,
{
    if v < 16 {
        let mut r = Vec::new();
        r.push(hex_digit_char(v as u8));
        r
    } else {
        let mut r = hex_string(v / 16);
        r.push(hex_digit_char((v % 16) as u8));
        r
    }
}

/// The save text of completed puzzles: each identifier in hexadecimal followed by a space.
pub open spec fn spec_save_text(ids: Seq<u128>) -> Seq<char>
    decreases ids.len(),
{
    if ids.len() == 0 {
        seq![]
    } else {
        spec_hex(ids[0] as nat) + seq![' '] + spec_save_text(ids.drop_first())
    }
}

/// The text the save file of completed puzzles holds for the given identifiers, in the given
/// order.
pub fn save_text(ids: &[u128]) -> (s: String)
    ensures
        s@ == spec_save_text(ids@),
{
    let mut s = String::new();
    let mut i: usize = 0;
    assert(ids@.skip(0) =~= ids@);
    while i < ids.len()
        invariant
            i <= ids@.len(),
            s@ + spec_save_text(ids@.skip(i as int)) == spec_save_text(ids@),
        decreases ids.len() - i,
    {
        let ghost rest = ids@.skip(i as int);
        assert(rest.drop_first() =~= ids@.skip(i + 1));
        let h = hex_string(ids[i]);
        let hs = string_from_chars(h.as_slice());
        let ghost before = s@;
        s.append(hs.as_str());
        push_char(&mut s, ' ');
        assert(s@ + spec_save_text(ids@.skip(i + 1)) =~= before + spec_save_text(rest));
        i = i + 1;
    }
    assert(ids@.skip(ids@.len() as int) =~= Seq::<u128>::empty());
    assert(s@ =~= s@ + spec_save_text(ids@.skip(i as int)));
    s
}

/// The numbers written in hexadecimal in the pieces, if every piece is one.
pub open spec fn parse_pieces(ps: Seq<Seq<char>>) -> Option<Seq<u128>>
    decreases ps.len(),
{
    if ps.len() == 0 {
        Some(seq![])
    } else {
        match (spec_parse_hex(ps[0]), parse_pieces(ps.drop_first())) {
            (Some(v), Some(rest)) => Some(seq![v] + rest),
            _ => None,
        }
    }
}

/// The identifiers of save file lines: each line without surrounding white space, split at
/// spaces, every piece a number in hexadecimal.
pub open spec fn parse_save_lines(ls: Seq<Seq<char>>) -> Option<Seq<u128>>
    decreases ls.len(),
{
    if ls.len() == 0 {
        Some(seq![])
    } else {
        match (parse_pieces(spec_split(spec_trim(ls[0]), ' ')), parse_save_lines(ls.drop_first())) {
            (Some(a), Some(b)) => Some(a + b),
            _ => None,
        }
    }
}

/// The identifiers held by the text of a save file, if it reads.
pub open spec fn spec_load_save(text: Seq<char>) -> Option<Seq<u128>> {
    parse_save_lines(spec_lines(text))
}

/// Read the numbers written in hexadecimal in the pieces of a line split at spaces.
fn parse_line(t: &[char]) -> (r: Option<Vec<u128>>)
    ensures
        match parse_pieces(spec_split(t@, ' ')) {
            Some(ids) => r matches Some(v) && v@ == ids,
            None => r is None,
        },
{
    let ps = split(t, ' ');
    let ghost pv = spec_split(t@, ' ');
    let mut ids: Vec<u128> = Vec::new();
    let mut j: usize = 0;
    assert(pv.skip(0) =~= pv);
    assert(ids@ + Seq::<u128>::empty() =~= ids@);
    while j < ps.len()
        invariant
            j <= ps@.len() == pv.len(),
            pv == spec_split(t@, ' '),
            forall|k: int| 0 <= k < ps@.len() ==> #[trigger] ps@[k]@ == pv[k],
            parse_pieces(pv) == match parse_pieces(pv.skip(j as int)) {
                Some(rest) => Some(ids@ + rest),
                None => None::<Seq<u128>>,
            },
        decreases ps@.len() - j,
    {
        let ghost rp = pv.skip(j as int);
        assert(rp.drop_first() =~= pv.skip(j + 1));
        assert(rp[0] == pv[j as int]);
        match parse_hex(ps[j].as_slice()) {
            None => {
                return None;
            },
            Some(v) => {
                let ghost got = ids@;
                ids.push(v);
                proof {
                    match parse_pieces(pv.skip(j + 1)) {
                        Some(rest) => {
                            assert(got + (seq![v] + rest) =~= ids@ + rest);
                        },
                        None => {},
                    }
                }
            },
        }
        j = j + 1;
    }
    assert(pv.skip(ps@.len() as int) =~= Seq::<Seq<char>>::empty());
    assert(ids@ + Seq::<u128>::empty() =~= ids@);
    Some(ids)
}

/// Read the identifiers of the completed puzzles from the text of the save file, in the order
/// written. `None` when a piece of it is not a number in hexadecimal.
fn load_save_ids(text: &str) -> (r: Option<Vec<u128>>)
    ensures
        match spec_load_save(text@) {
            Some(ids) => r matches Some(v) && v@ == ids,
            None => r is None,
        },
{
    let chars = chars_of(text);
    let ls = lines(chars.as_slice());
    let ghost l = spec_lines(text@);
    let mut ids: Vec<u128> = Vec::new();
    let mut i: usize = 0;
    assert(l.skip(0) =~= l);
    assert(ids@ + Seq::<u128>::empty() =~= ids@);
    while i < ls.len()
        invariant
            i <= ls@.len() == l.len(),
            l == spec_lines(text@),
            forall|k: int| 0 <= k < ls@.len() ==> #[trigger] ls@[k]@ == l[k],
            parse_save_lines(l) == match parse_save_lines(l.skip(i as int)) {
                Some(rest) => Some(ids@ + rest),
                None => None::<Seq<u128>>,
            },
        decreases ls@.len() - i,
    {
        let ghost rest_lines = l.skip(i as int);
        assert(rest_lines.drop_first() =~= l.skip(i + 1));
        assert(rest_lines[0] == l[i as int]);
        let t = trim(ls[i].as_slice());
        match parse_line(t.as_slice()) {
            None => {
                return None;
            },
            Some(got) => {
                let ghost before = ids@;
                let mut k: usize = 0;
                while k < got.len()
                    invariant
                        k <= got@.len(),
                        ids@ == before + got@.subrange(0, k as int),
                    decreases got@.len() - k,
                {
                    ids.push(got[k]);
                    k = k + 1;
                    assert(ids@ =~= before + got@.subrange(0, k as int));
                }
                proof {
                    assert(got@.subrange(0, got@.len() as int) =~= got@);
                    match parse_save_lines(l.skip(i + 1)) {
                        Some(rest) => {
                            assert(before + (got@ + rest) =~= ids@ + rest);
                        },
                        None => {},
                    }
                }
            },
        }
        i = i + 1;
    }
    proof {
        assert(l.skip(ls@.len() as int) =~= Seq::<Seq<char>>::empty());
        assert(ids@ + Seq::<u128>::empty() =~= ids@);
    }
    Some(ids)
}

/// The identifiers separated by single spaces.
pub open spec fn joined(ids: Seq<u128>) -> Seq<char>
    decreases ids.len(),
{
    if ids.len() <= 1 {
        if ids.len() == 0 { seq![] } else { spec_hex(ids[0] as nat) }
    } else {
        spec_hex(ids[0] as nat) + seq![' '] + joined(ids.drop_first())
    }
}

proof fn lemma_joined(ids: Seq<u128>)
    requires
        ids.len() > 0,
    ensures
        spec_save_text(ids) == joined(ids) + seq![' '],
        joined(ids).len() > 0,
        !is_white_space(joined(ids)[0]),
        !is_white_space(joined(ids).last()),
        forall|i: int| 0 <= i < joined(ids).len() ==> #[trigger] joined(ids)[i] != '\n',
        spec_split(joined(ids), ' ') == ids.map_values(|v: u128| spec_hex(v as nat)),
    decreases ids.len(),
{
    lemma_hex(ids[0] as nat);
    let h = spec_hex(ids[0] as nat);
    assert forall|k: int| 0 <= k < h.len() implies h[k] != ' ' by {
        assert(!is_white_space(h[k]));
    }
    if ids.len() == 1 {
        assert(ids.drop_first() =~= Seq::<u128>::empty());
        assert(spec_save_text(ids.drop_first()) =~= Seq::<char>::empty());
        assert(spec_save_text(ids) =~= h + seq![' ']);
        lemma_split_none(h, ' ');
        assert(ids.map_values(|v: u128| spec_hex(v as nat)) =~= seq![h]);
        assert forall|i: int| 0 <= i < joined(ids).len() implies #[trigger] joined(ids)[i] != '\n' by {
            assert(!is_white_space(h[i]));
        }
    } else {
        let r = ids.drop_first();
        lemma_joined(r);
        let j = joined(ids);
        assert(j == h + seq![' '] + joined(r));
        assert(spec_save_text(ids) =~= j + seq![' ']);
        assert(j[0] == h[0]);
        assert(j.last() == joined(r).last());
        assert forall|i: int| 0 <= i < j.len() implies #[trigger] j[i] != '\n' by {
            if i < h.len() {
                assert(!is_white_space(h[i]));
            } else if i > h.len() {
                assert(j[i] == joined(r)[i - h.len() - 1]);
            }
        }
        lemma_split_cons(h, ' ', joined(r));
        assert(ids.map_values(|v: u128| spec_hex(v as nat)) =~= seq![h] + r.map_values(|v: u128| spec_hex(v as nat)));
    }
}

proof fn lemma_parse_hexes(ids: Seq<u128>)
    ensures
        parse_pieces(ids.map_values(|v: u128| spec_hex(v as nat))) == Some(ids),
    decreases ids.len(),
{
    let ps = ids.map_values(|v: u128| spec_hex(v as nat));
    if ids.len() > 0 {
        lemma_hex(ids[0] as nat);
        let h = spec_hex(ids[0] as nat);
        assert(h[0] != '+');
        assert(spec_parse_hex(h) == Some(ids[0]));
        assert(ps.drop_first() =~= ids.drop_first().map_values(|v: u128| spec_hex(v as nat)));
        lemma_parse_hexes(ids.drop_first());
        assert(seq![ids[0]] + ids.drop_first() =~= ids);
    }
}

/// Reading back the save text written for some identifiers gives those identifiers, in the
/// same order.
pub proof fn lemma_save_roundtrip(ids: Seq<u128>)
    ensures
        spec_load_save(spec_save_text(ids)) == Some(ids),
{
    let t = spec_save_text(ids);
    if ids.len() == 0 {
        lemma_split_none(t, '\n');
        assert(spec_lines(t) =~= Seq::<Seq<char>>::empty());
    } else {
        lemma_joined(ids);
        let j = joined(ids);
        assert forall|k: int| 0 <= k < t.len() implies t[k] != '\n' by {
            if k < j.len() {
                assert(t[k] == j[k]);
            }
        }
        lemma_lines_single(t);
        assert(lead_ws(t) == 0) by {
            assert(t[0] == j[0]);
        }
        assert(t.drop_last() =~= j);
        assert(t.last() == ' ');
        assert(trail_ws(j) == 0);
        assert(trail_ws(t) == 1 + trail_ws(t.drop_last()));
        assert(t.skip(0) =~= t);
        assert(spec_trim(t) =~= j);
        lemma_parse_hexes(ids);
        let ls = spec_lines(t);
        assert(ls == seq![t]);
        assert(ls[0] == t);
        assert(ls.drop_first() =~= Seq::<Seq<char>>::empty());
        assert(parse_save_lines(ls.drop_first()) == Some(Seq::<u128>::empty()));
        assert(parse_pieces(spec_split(spec_trim(ls[0]), ' ')) == Some(ids));
        assert(ids + Seq::<u128>::empty() =~= ids);
    }
}

/// Check if a string is the super secret string: its identifier is that of the standard pack.
pub fn is_secret(string: &str) -> (r: bool)
    ensures
        r == (spec_text_id(string@) == SUPER_SECRET_NAME as nat),
{
    let hash = text_id(string);
    hash == SUPER_SECRET_NAME
}

/// The lines a puzzle is saved as: its name, its rows, top row first, each covering the
/// points from 0 up to the width, then an empty line.
pub open spec fn block_lines(p: Puzzle) -> Seq<Seq<char>> {
    seq![p.name@] + row_texts(p.data@, p.data@.hgt as int, p.data@.wid as int) + seq![Seq::<char>::empty()]
}

/// The lines the puzzles of a pack are saved as, one puzzle after the other.
pub open spec fn pzls_lines(pzls: Seq<Puzzle>) -> Seq<Seq<char>>
    decreases pzls.len(),
{
    if pzls.len() == 0 {
        seq![]
    } else {
        pzls_lines(pzls.drop_last()) + block_lines(pzls.last())
    }
}

/// The text a pack of puzzles is saved as: a line with the pack's name, then the lines of its
/// puzzles, every line followed by a line feed.
pub open spec fn spec_pack_text(name: Seq<char>, pzls: Seq<Puzzle>) -> Seq<char> {
    terminated(seq![name] + pzls_lines(pzls))
}

/// The text a pack of puzzles is written to its file as. Note: the width and height of the
/// maps of the puzzles must be accurate!
pub fn pack_text(pack: &PuzzlePack) -> (s: String)
    requires
        forall|k: int| 0 <= k < pack.pzls@.len() ==> writable((#[trigger] pack.pzls@[k]).data@, pack.pzls@[k].data@.wid as int),
    ensures
        s@ == spec_pack_text(pack.name@, pack.pzls@),
{
    let mut data = String::new();
    data.append(pack.name.as_str());
    push_char(&mut data, '\n');
    proof {
        let first = seq![pack.name@];
        assert(first.drop_last() =~= Seq::<Seq<char>>::empty());
        assert(terminated(Seq::<Seq<char>>::empty()) =~= Seq::<char>::empty());
        assert(terminated(first) =~= Seq::<char>::empty() + first.last() + seq!['\n']);
        assert(terminated(first) =~= pack.name@ + seq!['\n']);
        assert(pack.pzls@.subrange(0, 0) =~= Seq::<Puzzle>::empty());
        assert(first + pzls_lines(Seq::<Puzzle>::empty()) =~= first);
    }
    let mut i: usize = 0;
    while i < pack.pzls.len()
        invariant
            i <= pack.pzls@.len(),
            forall|k: int| 0 <= k < pack.pzls@.len() ==> writable((#[trigger] pack.pzls@[k]).data@, pack.pzls@[k].data@.wid as int),
            data@ == spec_pack_text(pack.name@, pack.pzls@.subrange(0, i as int)),
        decreases pack.pzls@.len() - i,
    {
        let pzl = &pack.pzls[i];
        let ghost before = data@;
        data.append(pzl.name.as_str());
        push_char(&mut data, '\n');
        data.append(grid_text(&pzl.data, pzl.data.wid()).as_str());
        push_char(&mut data, '\n');
        proof {
            let s1 = pack.pzls@.subrange(0, i as int);
            let s2 = pack.pzls@.subrange(0, i + 1);
            let p = pack.pzls@[i as int];
            assert(s2.drop_last() =~= s1);
            assert(s2.last() == p);
            let g = p.data@;
            let rows = row_texts(g, g.hgt as int, g.wid as int);
            lemma_rows_text_terminated(g, g.hgt as int, g.wid as int);
            let nm = seq![p.name@];
            let em = seq![Seq::<char>::empty()];
            assert(nm.drop_last() =~= Seq::<Seq<char>>::empty());
            assert(em.drop_last() =~= Seq::<Seq<char>>::empty());
            assert(terminated(Seq::<Seq<char>>::empty()) =~= Seq::<char>::empty());
            assert(terminated(nm) =~= Seq::<char>::empty() + nm.last() + seq!['\n']);
            assert(terminated(nm) =~= p.name@ + seq!['\n']);
            assert(terminated(em) =~= Seq::<char>::empty() + em.last() + seq!['\n']);
            assert(terminated(em) =~= seq!['\n']);
            lemma_terminated_append(nm, rows);
            lemma_terminated_append(nm + rows, em);
            assert(block_lines(p) == nm + rows + em);
            let front = seq![pack.name@] + pzls_lines(s1);
            lemma_terminated_append(front, block_lines(p));
            assert(seq![pack.name@] + pzls_lines(s2) =~= front + block_lines(p));
            assert(data@ =~= spec_pack_text(pack.name@, s2));
        }
        i = i + 1;
    }
    assert(pack.pzls@.subrange(0, pack.pzls@.len() as int) =~= pack.pzls@);
    data
}

/// The identifiers of a set, each once, in the order the set is walked.
pub fn set_ids(set: &HashSet<u128>) -> (ids: Vec<u128>)
    ensures
        ids@.no_duplicates(),
        ids@.to_set() == set@,
{
    broadcast use vstd::std_specs::hash::group_hash_axioms;
    let ghost keys = vstd::std_specs::hash::spec_hash_keys_iter(set).remaining();
    let mut ids: Vec<u128> = Vec::new();
    for x in it: set.iter()
        invariant
            it.seq() == keys,
            ids@ == keys.take(it.index() as int).unref(),
    {
        assert(keys.take(it.index() + 1).unref() =~= keys.take(it.index() as int).unref().push(*keys[it.index() as int]));
        ids.push(*x);
    }
    assert(ids@ =~= keys.unref());
    ids
}

/// Read the set of completed puzzles from the text of the save file: the identifiers written
/// there. `None` when a piece of it is not a number in hexadecimal.
pub fn load_pzl_save(text: &str) -> (r: Option<HashSet<u128>>)
    ensures
        match spec_load_save(text@) {
            Some(ids) => r matches Some(set) && set@ == ids.to_set(),
            None => r is None,
        },
{
    broadcast use vstd::std_specs::hash::group_hash_axioms;
    let ids = match load_save_ids(text) {
        Some(ids) => ids,
        None => {
            return None;
        },
    };
    let mut set: HashSet<u128> = HashSet::new();
    let mut i: usize = 0;
    while i < ids.len()
        invariant
            i <= ids@.len(),
            set@ == ids@.take(i as int).to_set(),
        decreases ids.len() - i,
    {
        set.insert(ids[i]);
        proof {
            let a = ids@.take(i as int);
            let b = ids@.take(i + 1);
            assert forall|x: u128| b.contains(x) <==> a.contains(x) || x == ids@[i as int] by {
                if b.contains(x) {
                    let k = choose|k: int| 0 <= k < b.len() && b[k] == x;
                    if k < i {
                        assert(a[k] == x);
                    }
                }
                if a.contains(x) {
                    let k = choose|k: int| 0 <= k < a.len() && a[k] == x;
                    assert(b[k] == x);
                }
                if x == ids@[i as int] {
                    assert(b[i as int] == x);
                }
            }
            assert(b.to_set() =~= a.to_set().insert(ids@[i as int]));
        }
        i = i + 1;
    }
    assert(ids@.take(ids@.len() as int) =~= ids@);
    Some(set)
}

/// The text the save file holds for a set of completed puzzles: every identifier of the set
/// once, in the order the set is walked.
pub fn save_set_text(set: &HashSet<u128>) -> (s: String)
    ensures
        exists|ids: Seq<u128>| #[trigger] ids.to_set() == set@ && ids.no_duplicates() && s@ == spec_save_text(ids),
{
    let ids = set_ids(set);
    save_text(ids.as_slice())
}

/// Reading back the save text written for a set of completed puzzles, whatever order it is
/// walked in, gives that set.
pub proof fn lemma_saved_set_reads_back(ids: Seq<u128>, set: Set<u128>)
    requires
        ids.to_set() == set,
    ensures
        spec_load_save(spec_save_text(ids)) matches Some(back) && back.to_set() == set,
{
    lemma_save_roundtrip(ids);
}

} // verus!
