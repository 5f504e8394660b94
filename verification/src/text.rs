//! Small helpers for moving between text and sequences of characters.

use vstd::prelude::*;

verus! {

/// The characters of a string slice.
pub fn chars_of(s: &str) -> (v: Vec<char>)
    ensures
        v@ == s@,
{
    let mut v: Vec<char> = Vec::new();
    for c in it: s.chars()
        invariant
            it.seq() == s@,
            v@ == s@.take(it.index() as int),
    {
        v.push(c);
        assert(v@ =~= s@.take(it.index() as int + 1));
    }
    assert(s@.take(s@.len() as int) =~= s@);
    v
}

/// Append one character to a string (`String::push`).
#[verifier::external_body]
pub(crate) fn push_char(s: &mut String, c: char)
    ensures
        final(s)@ == old(s)@.push(c),
{
    s.push(c);
}

/// A string holding the given characters.
pub fn string_from_chars(chars: &[char]) -> (s: String)
    ensures
        s@ == chars@,
{
    let mut s = String::new();
    let mut i: usize = 0;
    while i < chars.len()
        invariant
            i <= chars@.len(),
            s@ == chars@.subrange(0, i as int),
        decreases chars.len() - i,
    {
        push_char(&mut s, chars[i]);
        i = i + 1;
        assert(s@ =~= chars@.subrange(0, i as int));
    }
    assert(chars@.subrange(0, chars@.len() as int) =~= chars@);
    s
}


/// The upper case form of an ASCII lower case letter; any other character is unchanged.
pub open spec fn spec_ascii_upper(c: char) -> char {
    if 'a' <= c && c <= 'z' {
        ((c as u32) - 32) as char
    } else {
        c
    }
}

/// The lower case form of an ASCII upper case letter; any other character is unchanged.
pub open spec fn spec_ascii_lower(c: char) -> char {
    if 'A' <= c && c <= 'Z' {
        ((c as u32) + 32) as char
    } else {
        c
    }
}

/// The upper case form of an ASCII lower case letter (`char::to_ascii_uppercase`).
pub fn ascii_upper(c: char) -> (r: char)
    ensures
        r == spec_ascii_upper(c),
{
    if 'a' <= c && c <= 'z' {
        ((c as u8) - 32) as char
    } else {
        c
    }
}

/// The lower case form of an ASCII upper case letter (`char::to_ascii_lowercase`).
pub fn ascii_lower(c: char) -> (r: char)
    ensures
        r == spec_ascii_lower(c),
{
    if 'A' <= c && c <= 'Z' {
        ((c as u8) + 32) as char
    } else {
        c
    }
}


/// Unicode white space (the characters `char::is_whitespace` accepts).
pub open spec fn is_white_space(c: char) -> bool {
    ||| ('\u{9}' <= c && c <= '\u{d}')
    ||| c == ' '
    ||| c == '\u{85}'
    ||| c == '\u{a0}'
    ||| c == '\u{1680}'
    ||| ('\u{2000}' <= c && c <= '\u{200a}')
    ||| c == '\u{2028}'
    ||| c == '\u{2029}'
    ||| c == '\u{202f}'
    ||| c == '\u{205f}'
    ||| c == '\u{3000}'
}

/// True for Unicode white space (`char::is_whitespace`).
pub fn white_space(c: char) -> (r: bool)
    ensures
        r == is_white_space(c),
{
    ('\u{9}' <= c && c <= '\u{d}') || c == ' ' || c == '\u{85}' || c == '\u{a0}' || c == '\u{1680}'
        || ('\u{2000}' <= c && c <= '\u{200a}') || c == '\u{2028}' || c == '\u{2029}' || c == '\u{202f}'
        || c == '\u{205f}' || c == '\u{3000}'
}

/// The number of white space characters at the start.
pub open spec fn lead_ws(s: Seq<char>) -> nat
    decreases s.len(),
{
    if s.len() > 0 && is_white_space(s[0]) {
        1 + lead_ws(s.drop_first())
    } else {
        0
    }
}

/// The number of white space characters at the end.
pub open spec fn trail_ws(s: Seq<char>) -> nat
    decreases s.len(),
{
    if s.len() > 0 && is_white_space(s.last()) {
        1 + trail_ws(s.drop_last())
    } else {
        0
    }
}

/// The text without leading and trailing white space (`str::trim`).
pub open spec fn spec_trim(s: Seq<char>) -> Seq<char> {
    let t = s.skip(lead_ws(s) as int);
    t.take(t.len() - trail_ws(t))
}

proof fn lemma_lead_ws(s: Seq<char>, i: int)
    requires
        0 <= i <= s.len(),
        forall|k: int| 0 <= k < i ==> is_white_space(#[trigger] s[k]),
        i == s.len() || !is_white_space(s[i]),
    ensures
        lead_ws(s) == i,
    decreases i,
{
    if i > 0 {
        lemma_lead_ws(s.drop_first(), i - 1);
    }
}

proof fn lemma_trail_ws(s: Seq<char>, j: int)
    requires
        0 <= j <= s.len(),
        forall|k: int| j <= k < s.len() ==> is_white_space(#[trigger] s[k]),
        j == 0 || !is_white_space(s[j - 1]),
    ensures
        trail_ws(s) == s.len() - j,
    decreases s.len() - j,
{
    if j < s.len() {
        lemma_trail_ws(s.drop_last(), j);
    }
}

/// The text without leading and trailing white space.
pub fn trim(s: &[char]) -> (r: Vec<char>)
    ensures
        r@ == spec_trim(s@),
{
    let n = s.len();
    let mut i: usize = 0;
    while i < n && white_space(s[i])
        invariant
            i <= n == s@.len(),
            forall|k: int| 0 <= k < i ==> is_white_space(#[trigger] s@[k]),
        decreases n - i,
    {
        i = i + 1;
    }
    proof {
        lemma_lead_ws(s@, i as int);
    }
    let mut j: usize = n;
    while j > i && white_space(s[j - 1])
        invariant
            i <= j <= n == s@.len(),
            forall|k: int| j <= k < n ==> is_white_space(#[trigger] s@[k]),
        decreases j,
    {
        j = j - 1;
    }
    let ghost t = s@.skip(i as int);
    proof {
        assert forall|k: int| j - i <= k < t.len() implies is_white_space(#[trigger] t[k]) by {
            assert(t[k] == s@[k + i]);
        }
        lemma_trail_ws(t, j - i);
    }
    let r = slice_chars(s, i, j);
    assert(r@ =~= t.take(t.len() - trail_ws(t)));
    r
}

/// The characters from `lo` up to `hi`.
pub fn slice_chars(s: &[char], lo: usize, hi: usize) -> (r: Vec<char>)
    requires
        lo <= hi <= s@.len(),
    ensures
        r@ == s@.subrange(lo as int, hi as int),
{
    let mut r: Vec<char> = Vec::new();
    let mut k = lo;
    while k < hi
        invariant
            lo <= k <= hi <= s@.len(),
            r@ == s@.subrange(lo as int, k as int),
        decreases hi - k,
    {
        r.push(s[k]);
        k = k + 1;
        assert(r@ =~= s@.subrange(lo as int, k as int));
    }
    r
}

/// The index of the first occurrence of `c` from `i` on, if any.
pub open spec fn find_from(s: Seq<char>, c: char, i: int) -> Option<int>
    decreases s.len() - i,
{
    if i < 0 || i >= s.len() {
        None
    } else if s[i] == c {
        Some(i)
    } else {
        find_from(s, c, i + 1)
    }
}

pub proof fn lemma_find_from(s: Seq<char>, c: char, i: int)
    requires
        0 <= i,
    ensures
        find_from(s, c, i) matches Some(k) ==> i <= k < s.len() && s[k] == c
            && forall|m: int| i <= m < k ==> s[m] != c,
        find_from(s, c, i) is None ==> forall|m: int| i <= m < s.len() ==> s[m] != c,
    decreases s.len() - i,
{
    if i < s.len() && s[i] != c {
        lemma_find_from(s, c, i + 1);
    }
}

/// The pieces of the text between occurrences of `sep`, starting at `i` (`str::split`): an
/// empty text gives one empty piece.
pub open spec fn split_from(s: Seq<char>, sep: char, i: int) -> Seq<Seq<char>>
    decreases s.len() - i,
{
    if i < 0 || i > s.len() {
        seq![]
    } else {
        match find_from(s, sep, i) {
            None => seq![s.subrange(i, s.len() as int)],
            Some(k) => {
                proof {
                    lemma_find_from(s, sep, i);
                }
                seq![s.subrange(i, k)] + split_from(s, sep, k + 1)
            },
        }
    }
}

/// The pieces of the text between occurrences of `sep` (`str::split`).
pub open spec fn spec_split(s: Seq<char>, sep: char) -> Seq<Seq<char>> {
    split_from(s, sep, 0)
}

/// The pieces of the text between occurrences of `sep` (`str::split`).
pub fn split(s: &[char], sep: char) -> (r: Vec<Vec<char>>)
    ensures
        r@.len() == spec_split(s@, sep).len(),
        forall|k: int| 0 <= k < r@.len() ==> #[trigger] r@[k]@ == spec_split(s@, sep)[k],
{
    let mut r: Vec<Vec<char>> = Vec::new();
    let mut start: usize = 0;
    let mut i: usize = 0;
    let n = s.len();
    while i < n
        invariant
            start <= i <= n == s@.len(),
            forall|m: int| start <= m < i ==> s@[m] != sep,
            spec_split(s@, sep).len() == r@.len() + split_from(s@, sep, start as int).len(),
            forall|k: int| 0 <= k < r@.len() ==> #[trigger] r@[k]@ == spec_split(s@, sep)[k],
            forall|k: int| 0 <= k < split_from(s@, sep, start as int).len() ==> #[trigger] split_from(s@, sep, start as int)[k] == spec_split(s@, sep)[r@.len() + k],
        decreases n - i,
    {
        if s[i] == sep {
            proof {
                lemma_find_from(s@, sep, start as int);
                lemma_find_from(s@, sep, i as int);
                assert(find_from(s@, sep, start as int) == Some(i as int)) by {
                    lemma_find_first(s@, sep, start as int, i as int);
                }
                let rest = split_from(s@, sep, i + 1);
                assert(split_from(s@, sep, start as int) == seq![s@.subrange(start as int, i as int)] + rest);
                assert forall|k: int| 0 <= k < rest.len() implies #[trigger] rest[k] == spec_split(s@, sep)[r@.len() + 1 + k] by {
                    assert(split_from(s@, sep, start as int)[k + 1] == rest[k]);
                }
                assert(split_from(s@, sep, start as int)[0] == s@.subrange(start as int, i as int));
            }
            r.push(slice_chars(s, start, i));
            start = i + 1;
        }
        i = i + 1;
    }
    proof {
        lemma_find_from(s@, sep, start as int);
        assert(find_from(s@, sep, start as int) is None) by {
            if find_from(s@, sep, start as int) is Some {
                let k = find_from(s@, sep, start as int)->0;
                assert(s@[k] == sep);
            }
        }
        assert(split_from(s@, sep, start as int) == seq![s@.subrange(start as int, n as int)]);
        assert(split_from(s@, sep, start as int)[0] == spec_split(s@, sep)[r@.len() as int]);
    }
    r.push(slice_chars(s, start, n));
    r
}

proof fn lemma_find_first(s: Seq<char>, c: char, start: int, i: int)
    requires
        0 <= start <= i < s.len(),
        s[i] == c,
        forall|m: int| start <= m < i ==> s[m] != c,
    ensures
        find_from(s, c, start) == Some(i),
    decreases i - start,
{
    if start < i {
        lemma_find_first(s, c, start + 1, i);
    }
}

/// Every piece of a split lies in range and there is at least one.
pub proof fn lemma_split_from_len(s: Seq<char>, sep: char, i: int)
    requires
        0 <= i <= s.len(),
    ensures
        split_from(s, sep, i).len() >= 1,
    decreases s.len() - i,
{
    lemma_find_from(s, sep, i);
    if let Some(k) = find_from(s, sep, i) {
        lemma_split_from_len(s, sep, k + 1);
    }
}

/// A line without the carriage return that ended it, if it had one.
pub open spec fn strip_cr(l: Seq<char>) -> Seq<char> {
    if l.len() > 0 && l.last() == '\r' {
        l.drop_last()
    } else {
        l
    }
}

/// The lines of a text (`str::lines`): the pieces between line feeds, a carriage return
/// before a line feed dropped with it, and no empty last line after a final line feed.
pub open spec fn spec_lines(s: Seq<char>) -> Seq<Seq<char>> {
    let p = spec_split(s, '\n');
    let n = p.len() as int;
    let k = if s.len() == 0 || s.last() == '\n' { n - 1 } else { n };
    Seq::new(k as nat, |i: int| if i < n - 1 { strip_cr(p[i]) } else { p[i] })
}

/// The lines of a text (`str::lines`).
pub fn lines(s: &[char]) -> (r: Vec<Vec<char>>)
    ensures
        r@.len() == spec_lines(s@).len(),
        forall|k: int| 0 <= k < r@.len() ==> #[trigger] r@[k]@ == spec_lines(s@)[k],
{
    let pieces = split(s, '\n');
    proof {
        lemma_split_from_len(s@, '\n', 0);
    }
    let n = pieces.len();
    let k = if s.len() == 0 || s[s.len() - 1] == '\n' { n - 1 } else { n };
    let mut r: Vec<Vec<char>> = Vec::new();
    let mut i: usize = 0;
    while i < k
        invariant
            i <= k <= n,
            n >= 1,
            n == pieces@.len() == spec_split(s@, '\n').len(),
            k == spec_lines(s@).len(),
            forall|m: int| 0 <= m < n ==> #[trigger] pieces@[m]@ == spec_split(s@, '\n')[m],
            r@.len() == i,
            forall|m: int| 0 <= m < i ==> #[trigger] r@[m]@ == spec_lines(s@)[m],
        decreases k - i,
    {
        let piece = &pieces[i];
        let len = piece.len();
        let line = if i < n - 1 && len > 0 && piece[len - 1] == '\r' {
            slice_chars(piece, 0, len - 1)
        } else {
            slice_chars(piece, 0, len)
        };
        proof {
            assert(piece@.subrange(0, len as int) =~= piece@);
            assert(piece@.subrange(0, len - 1) =~= piece@.drop_last());
        }
        r.push(line);
        i = i + 1;
    }
    r
}

/// The pieces of a split from `i` on are no longer than the rest of the text, and there are at
/// most one more of them than characters left.
pub proof fn lemma_split_from_bounds(s: Seq<char>, sep: char, i: int)
    requires
        0 <= i <= s.len(),
    ensures
        split_from(s, sep, i).len() <= s.len() - i + 1,
        forall|k: int| 0 <= k < split_from(s, sep, i).len() ==> #[trigger] split_from(s, sep, i)[k].len() <= s.len() - i,
    decreases s.len() - i,
{
    lemma_find_from(s, sep, i);
    if let Some(j) = find_from(s, sep, i) {
        lemma_split_from_bounds(s, sep, j + 1);
        let rest = split_from(s, sep, j + 1);
        assert(split_from(s, sep, i) == seq![s.subrange(i, j)] + rest);
        assert forall|k: int| 0 <= k < split_from(s, sep, i).len() implies #[trigger] split_from(s, sep, i)[k].len() <= s.len() - i by {
            if k > 0 {
                assert(split_from(s, sep, i)[k] == rest[k - 1]);
            }
        }
    }
}

/// A text has at most one more line than characters, and no line is longer than the text.
pub proof fn lemma_lines_bounds(s: Seq<char>)
    ensures
        spec_lines(s).len() <= s.len() + 1,
        forall|k: int| 0 <= k < spec_lines(s).len() ==> #[trigger] spec_lines(s)[k].len() <= s.len(),
{
    lemma_split_from_bounds(s, '\n', 0);
    lemma_split_from_len(s, '\n', 0);
    let p = spec_split(s, '\n');
    assert forall|k: int| 0 <= k < spec_lines(s).len() implies #[trigger] spec_lines(s)[k].len() <= s.len() by {
        assert(p[k].len() <= s.len());
    }
}

/// The characters of the pieces of a text, each counted with one more for its separator.
pub open spec fn pieces_size(ps: Seq<Seq<char>>) -> nat
    decreases ps.len(),
{
    if ps.len() == 0 {
        0
    } else {
        ps[0].len() + 1 + pieces_size(ps.drop_first())
    }
}

/// The pieces of a split from `i` on, with their separators, make up the rest of the text
/// and one more.
pub proof fn lemma_split_from_size(s: Seq<char>, sep: char, i: int)
    requires
        0 <= i <= s.len(),
    ensures
        pieces_size(split_from(s, sep, i)) == s.len() - i + 1,
    decreases s.len() - i,
{
    lemma_find_from(s, sep, i);
    match find_from(s, sep, i) {
        Some(j) => {
            lemma_split_from_size(s, sep, j + 1);
            let all = split_from(s, sep, i);
            assert(all == seq![s.subrange(i, j)] + split_from(s, sep, j + 1));
            assert(all.drop_first() =~= split_from(s, sep, j + 1));
            assert(all[0].len() == j - i);
            assert(pieces_size(all) == all[0].len() + 1 + pieces_size(all.drop_first()));
        },
        None => {
            let all = split_from(s, sep, i);
            assert(all == seq![s.subrange(i, s.len() as int)]);
            assert(all.drop_first() =~= Seq::<Seq<char>>::empty());
            assert(pieces_size(all.drop_first()) == 0);
            assert(all[0].len() == s.len() - i);
            assert(pieces_size(all) == all[0].len() + 1 + pieces_size(all.drop_first()));
        },
    }
}

/// Fewer pieces, none longer than its counterpart, make up no more.
pub proof fn lemma_pieces_size_le(a: Seq<Seq<char>>, b: Seq<Seq<char>>)
    requires
        a.len() <= b.len(),
        forall|k: int| 0 <= k < a.len() ==> (#[trigger] a[k]).len() <= b[k].len(),
    ensures
        pieces_size(a) <= pieces_size(b),
    decreases a.len(),
{
    if a.len() > 0 {
        assert forall|k: int| 0 <= k < a.drop_first().len() implies (#[trigger] a.drop_first()[k]).len() <= b.drop_first()[k].len() by {
            assert(a.drop_first()[k] == a[k + 1]);
            assert(b.drop_first()[k] == b[k + 1]);
        }
        lemma_pieces_size_le(a.drop_first(), b.drop_first());
    }
}

/// The lines of a text, each counted with its line feed, make up at most the text and one
/// more.
pub proof fn lemma_lines_size(s: Seq<char>)
    ensures
        pieces_size(spec_lines(s)) <= s.len() + 1,
{
    lemma_split_from_size(s, '\n', 0);
    lemma_split_from_len(s, '\n', 0);
    let p = spec_split(s, '\n');
    let l = spec_lines(s);
    assert forall|k: int| 0 <= k < l.len() implies (#[trigger] l[k]).len() <= p[k].len() by {}
    lemma_pieces_size_le(l, p);
}

/// Append characters to a list of characters.
pub fn append_chars(dst: &mut Vec<char>, src: &[char])
    ensures
        final(dst)@ == old(dst)@ + src@,
{
    let mut i: usize = 0;
    while i < src.len()
        invariant
            i <= src@.len(),
            dst@ == old(dst)@ + src@.subrange(0, i as int),
        decreases src.len() - i,
    {
        dst.push(src[i]);
        i = i + 1;
        assert(dst@ =~= old(dst)@ + src@.subrange(0, i as int));
    }
    assert(src@.subrange(0, src@.len() as int) =~= src@);
}

/// Searching from `j` in a text finds what searching from `j - i` finds in the text without
/// its first `i` characters, moved by `i`.
pub proof fn lemma_find_from_skip(s: Seq<char>, c: char, i: int, j: int)
    requires
        0 <= i <= j,
        i <= s.len(),
    ensures
        find_from(s, c, j) == match find_from(s.skip(i), c, j - i) {
            Some(k) => Some(k + i),
            None => None::<int>,
        },
    decreases s.len() - j,
{
    if j < s.len() && s[j] != c {
        lemma_find_from_skip(s, c, i, j + 1);
    }
}

/// Splitting from `j` gives the pieces that splitting the text without its first `i`
/// characters gives from `j - i`.
pub proof fn lemma_split_from_skip(s: Seq<char>, sep: char, i: int, j: int)
    requires
        0 <= i <= j <= s.len(),
    ensures
        split_from(s, sep, j) == split_from(s.skip(i), sep, j - i),
    decreases s.len() - j,
{
    lemma_find_from_skip(s, sep, i, j);
    lemma_find_from(s, sep, j);
    match find_from(s, sep, j) {
        Some(k) => {
            lemma_split_from_skip(s, sep, i, k + 1);
            assert(s.subrange(j, k) =~= s.skip(i).subrange(j - i, k - i));
        },
        None => {
            assert(s.subrange(j, s.len() as int) =~= s.skip(i).subrange(j - i, s.skip(i).len() as int));
        },
    }
}

/// A text without the separator splits into itself.
pub proof fn lemma_split_none(s: Seq<char>, sep: char)
    requires
        forall|k: int| 0 <= k < s.len() ==> s[k] != sep,
    ensures
        spec_split(s, sep) == seq![s],
{
    lemma_find_from(s, sep, 0);
    if find_from(s, sep, 0) is Some {
        let k = find_from(s, sep, 0)->0;
        assert(s[k] == sep);
    }
    assert(s.subrange(0, s.len() as int) =~= s);
}

/// A piece without the separator, the separator, then more text: the piece comes first, then
/// the pieces of the rest.
pub proof fn lemma_split_cons(a: Seq<char>, sep: char, r: Seq<char>)
    requires
        forall|k: int| 0 <= k < a.len() ==> a[k] != sep,
    ensures
        spec_split(a + seq![sep] + r, sep) == seq![a] + spec_split(r, sep),
{
    let s = a + seq![sep] + r;
    let n = a.len() as int;
    assert(s[n] == sep);
    assert forall|m: int| 0 <= m < n implies s[m] != sep by {
        assert(s[m] == a[m]);
    }
    lemma_find_first(s, sep, 0, n);
    lemma_split_from_skip(s, sep, n + 1, n + 1);
    assert(s.skip(n + 1) =~= r);
    assert(s.subrange(0, n) =~= a);
}

/// Splitting from `i` in a text made of `a`, which ends with the separator, and more text:
/// the pieces of `a` from `i`, bar the empty last one, then the pieces of the rest.
proof fn lemma_split_from_append(a: Seq<char>, b: Seq<char>, sep: char, i: int)
    requires
        a.len() > 0,
        a.last() == sep,
        0 <= i <= a.len(),
    ensures
        split_from(a + b, sep, i) == split_from(a, sep, i).drop_last() + spec_split(b, sep),
    decreases a.len() - i,
{
    let s = a + b;
    let n = a.len() as int;
    if i == n {
        lemma_split_from_skip(s, sep, n, n);
        assert(s.skip(n) =~= b);
        assert(find_from(a, sep, n) is None);
        assert(a.subrange(n, n) =~= Seq::<char>::empty());
        assert(split_from(a, sep, n) =~= seq![Seq::<char>::empty()]);
        assert(split_from(a, sep, i).drop_last() =~= Seq::<Seq<char>>::empty());
        assert(split_from(a, sep, i).drop_last() + spec_split(b, sep) =~= spec_split(b, sep));
    } else {
        lemma_find_from(a, sep, i);
        let k = find_from(a, sep, i)->0;
        assert forall|m: int| i <= m < k implies s[m] != sep by {
            assert(s[m] == a[m]);
        }
        assert(s[k] == sep);
        lemma_find_first(s, sep, i, k);
        lemma_split_from_append(a, b, sep, k + 1);
        lemma_split_from_len(a, sep, k + 1);
        assert(s.subrange(i, k) =~= a.subrange(i, k));
        let rest = split_from(a, sep, k + 1);
        assert((seq![a.subrange(i, k)] + rest).drop_last() =~= seq![a.subrange(i, k)] + rest.drop_last());
        assert(seq![a.subrange(i, k)] + (rest.drop_last() + spec_split(b, sep)) =~= (seq![a.subrange(i, k)] + rest.drop_last()) + spec_split(b, sep));
    }
}

/// Splitting a text made of `a`, which ends with the separator, and more text: the pieces of
/// `a`, bar the empty last one, then the pieces of the rest.
pub proof fn lemma_split_append(a: Seq<char>, b: Seq<char>, sep: char)
    requires
        a.len() > 0,
        a.last() == sep,
    ensures
        spec_split(a + b, sep) == spec_split(a, sep).drop_last() + spec_split(b, sep),
{
    lemma_split_from_append(a, b, sep, 0);
}

/// The lines, each followed by a line feed.
pub open spec fn terminated(ls: Seq<Seq<char>>) -> Seq<char>
    decreases ls.len(),
{
    if ls.len() == 0 {
        seq![]
    } else {
        terminated(ls.drop_last()) + ls.last() + seq!['\n']
    }
}

/// Lines written one list after another are the text of the first list followed by that of
/// the second.
pub proof fn lemma_terminated_append(a: Seq<Seq<char>>, b: Seq<Seq<char>>)
    ensures
        terminated(a + b) == terminated(a) + terminated(b),
    decreases b.len(),
{
    if b.len() == 0 {
        assert(a + b =~= a);
        assert(terminated(a) + terminated(b) =~= terminated(a));
    } else {
        lemma_terminated_append(a, b.drop_last());
        assert((a + b).drop_last() =~= a + b.drop_last());
        assert((a + b).last() == b.last());
        assert(terminated(a + b) =~= terminated(a) + terminated(b));
    }
}

/// A line holds no line feed and does not end with a carriage return.
pub open spec fn plain_line(l: Seq<char>) -> bool {
    &&& forall|k: int| 0 <= k < l.len() ==> l[k] != '\n'
    &&& (l.len() > 0 ==> l.last() != '\r')
}

proof fn lemma_split_terminated(ls: Seq<Seq<char>>)
    requires
        forall|i: int| 0 <= i < ls.len() ==> plain_line(#[trigger] ls[i]),
    ensures
        spec_split(terminated(ls), '\n') == ls.push(seq![]),
        ls.len() > 0 ==> terminated(ls).len() > 0 && terminated(ls).last() == '\n',
        ls.len() == 0 ==> terminated(ls).len() == 0,
    decreases ls.len(),
{
    if ls.len() == 0 {
        let t = terminated(ls);
        assert(t.len() == 0);
        assert(find_from(t, '\n', 0) is None);
        assert(t.subrange(0, 0) =~= Seq::<char>::empty());
        assert(spec_split(t, '\n') =~= ls.push(seq![]));
    } else {
        let front = ls.drop_last();
        assert forall|i: int| 0 <= i < front.len() implies plain_line(#[trigger] front[i]) by {
            assert(front[i] == ls[i]);
        }
        lemma_split_terminated(front);
        let a = terminated(front);
        let l = ls.last();
        assert(plain_line(ls[ls.len() - 1]));
        let tail = l + seq!['\n'];
        assert(terminated(ls) =~= a + tail);
        lemma_split_cons(l, '\n', Seq::<char>::empty());
        assert(l + seq!['\n'] + Seq::<char>::empty() =~= tail);
        let e = Seq::<char>::empty();
        assert(find_from(e, '\n', 0) is None);
        assert(e.subrange(0, 0) =~= e);
        assert(spec_split(e, '\n') =~= seq![e]);
        assert(spec_split(tail, '\n') =~= seq![l, e]);
        if front.len() == 0 {
            assert(a.len() == 0);
            assert(a + tail =~= tail);
            assert(ls =~= seq![l]);
            assert(ls.push(seq![]) =~= seq![l, e]);
        } else {
            lemma_split_append(a, tail, '\n');
            assert(front.push(seq![]).drop_last() =~= front);
            assert(front + seq![l, e] =~= ls.push(seq![]));
        }
        assert((a + tail).last() == '\n');
    }
}

/// The lines of text written as lines each followed by a line feed are those lines, when none
/// holds a line feed or ends with a carriage return.
pub proof fn lemma_lines_terminated(ls: Seq<Seq<char>>)
    requires
        forall|i: int| 0 <= i < ls.len() ==> plain_line(#[trigger] ls[i]),
    ensures
        spec_lines(terminated(ls)) == ls,
{
    lemma_split_terminated(ls);
    let t = terminated(ls);
    let p = spec_split(t, '\n');
    assert forall|i: int| 0 <= i < ls.len() implies #[trigger] spec_lines(t)[i] == ls[i] by {
        assert(p[i] == ls[i]);
        assert(plain_line(ls[i]));
    }
    assert(spec_lines(t) =~= ls);
}

/// A text of one line with no line feed is its only line.
pub proof fn lemma_lines_single(s: Seq<char>)
    requires
        s.len() > 0,
        forall|k: int| 0 <= k < s.len() ==> s[k] != '\n',
    ensures
        spec_lines(s) == seq![s],
{
    lemma_split_none(s, '\n');
    assert(spec_lines(s) =~= seq![s]);
}

/// The value of a decimal digit, if the character is one.
pub open spec fn dec_digit_val(c: char) -> Option<nat> {
    if '0' <= c && c <= '9' {
        Some((c as nat - 48) as nat)
    } else {
        None
    }
}

/// Every character is a decimal digit.
pub open spec fn all_dec(s: Seq<char>) -> bool {
    forall|i: int| 0 <= i < s.len() ==> (#[trigger] dec_digit_val(s[i])) is Some
}

/// The number that decimal digits stand for, most significant first.
pub open spec fn dec_val(s: Seq<char>) -> nat
    decreases s.len(),
{
    if s.len() == 0 {
        0
    } else {
        dec_val(s.drop_last()) * 10 + dec_digit_val(s.last())->0
    }
}

/// The digits of a number without its sign, and whether it was negative: a leading `+` or
/// (when signs may be negative) `-` is taken off.
pub open spec fn unsigned_part(s: Seq<char>, signed: bool) -> (Seq<char>, bool) {
    if s.len() > 0 && s[0] == '+' {
        (s.drop_first(), false)
    } else if signed && s.len() > 0 && s[0] == '-' {
        (s.drop_first(), true)
    } else {
        (s, false)
    }
}

/// A number written in decimal for a `usize` (`usize::from_str`): an optional `+`, then at
/// least one digit, the value fitting.
pub open spec fn spec_parse_usize(s: Seq<char>) -> Option<usize> {
    let d = unsigned_part(s, false).0;
    if d.len() > 0 && all_dec(d) && dec_val(d) <= usize::MAX {
        Some(dec_val(d) as usize)
    } else {
        None
    }
}

/// A number written in decimal for an `i32` (`i32::from_str`): an optional `+` or `-`, then
/// at least one digit, the value fitting.
pub open spec fn spec_parse_i32(s: Seq<char>) -> Option<i32> {
    let (d, neg) = unsigned_part(s, true);
    let v: int = if neg { -(dec_val(d) as int) } else { dec_val(d) as int };
    if d.len() > 0 && all_dec(d) && i32::MIN <= v <= i32::MAX {
        Some(v as i32)
    } else {
        None
    }
}

/// The digits of a decimal number and its value, as far as it stays below `limit`; `None`
/// for a character that is not a digit. The flag tells whether the value went past `limit`.
fn read_dec(s: &[char], start: usize, limit: u64) -> (r: Option<(u64, bool)>)
    requires
        start <= s@.len(),
    ensures
        match r {
            None => !all_dec(s@.skip(start as int)),
            Some((v, over)) => all_dec(s@.skip(start as int))
                && (over <==> dec_val(s@.skip(start as int)) > limit)
                && (!over ==> v == dec_val(s@.skip(start as int))),
        },
{
    let ghost d = s@.skip(start as int);
    let mut v: u64 = 0;
    let mut over = false;
    let mut i: usize = start;
    while i < s.len()
        invariant
            start <= i <= s@.len(),
            d == s@.skip(start as int),
            all_dec(s@.subrange(start as int, i as int)),
            over <==> dec_val(s@.subrange(start as int, i as int)) > limit,
            !over ==> v == dec_val(s@.subrange(start as int, i as int)),
        decreases s.len() - i,
    {
        let ghost t = s@.subrange(start as int, i + 1);
        assert(t.drop_last() =~= s@.subrange(start as int, i as int));
        let c = s[i];
        if !('0' <= c && c <= '9') {
            assert(d[i - start] == c);
            assert(dec_digit_val(d[i - start]) is None);
            return None;
        }
        let dg = (c as u8 - 48) as u64;
        assert(dec_digit_val(c) == Some(dg as nat));
        if !over {
            if dg > limit || v > (limit - dg) / 10 {
                over = true;
            } else {
                v = v * 10 + dg;
            }
        }
        i = i + 1;
        assert(all_dec(s@.subrange(start as int, i as int))) by {
            assert forall|k: int| 0 <= k < t.len() implies (#[trigger] dec_digit_val(t[k])) is Some by {
                if k < t.len() - 1 {
                    assert(t[k] == s@.subrange(start as int, i - 1)[k]);
                }
            }
        }
    }
    assert(s@.subrange(start as int, s@.len() as int) =~= d);
    Some((v, over))
}

/// Read a `usize` written in decimal.
pub fn parse_usize(s: &[char]) -> (r: Option<usize>)
    ensures
        r == spec_parse_usize(s@),
{
    let start: usize = if s.len() > 0 && s[0] == '+' { 1 } else { 0 };
    assert(unsigned_part(s@, false).0 =~= s@.skip(start as int));
    if start == s.len() {
        return None;
    }
    let limit: u64 = if usize::MAX as u64 <= u64::MAX { usize::MAX as u64 } else { u64::MAX };
    match read_dec(s, start, limit) {
        None => None,
        Some((v, over)) => {
            if over {
                None
            } else {
                Some(v as usize)
            }
        },
    }
}

/// Read an `i32` written in decimal.
pub fn parse_i32(s: &[char]) -> (r: Option<i32>)
    ensures
        r == spec_parse_i32(s@),
{
    let neg = s.len() > 0 && s[0] == '-';
    let start: usize = if s.len() > 0 && (s[0] == '+' || s[0] == '-') { 1 } else { 0 };
    assert(unsigned_part(s@, true).0 =~= s@.skip(start as int));
    assert(unsigned_part(s@, true).1 == neg);
    if start == s.len() {
        return None;
    }
    let limit: u64 = if neg { 2147483648 } else { 2147483647 };
    match read_dec(s, start, limit) {
        None => None,
        Some((v, over)) => {
            if over {
                None
            } else if neg {
                Some((0 - (v as i64)) as i32)
            } else {
                Some(v as i32)
            }
        },
    }
}
} // verus!
