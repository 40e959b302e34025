//! Cutting and comparing sequences of characters.
use vstd::prelude::*;

verus! {

/// White space, as Unicode defines it.
pub open spec fn is_white(c: char) -> bool {
    ('\u{9}' <= c <= '\u{D}') || c == ' ' || c == '\u{85}' || c == '\u{A0}' || c == '\u{1680}' || (
    '\u{2000}' <= c <= '\u{200A}') || c == '\u{2028}' || c == '\u{2029}' || c == '\u{202F}' || c
        == '\u{205F}' || c == '\u{3000}'
}

/// What is taken off the ends of a text.
#[derive(Clone, Copy, Debug, PartialEq, Eq, Structural)]
pub enum Strip {
    /// White space.
    White,
    /// Double quotes.
    Quotes,
    /// Square brackets, opening and closing alike.
    Brackets,
}

/// Whether `c` is one of the characters that `kind` takes off.
pub open spec fn strips(kind: Strip, c: char) -> bool {
    match kind {
        Strip::White => is_white(c),
        Strip::Quotes => c == '"',
        Strip::Brackets => c == '[' || c == ']',
    }
}

/// The first position at or behind `from` whose character stays.
pub open spec fn lead(s: Seq<char>, kind: Strip, from: int) -> int
    decreases s.len() - from,
{
    if 0 <= from < s.len() && strips(kind, s[from]) {
        lead(s, kind, from + 1)
    } else {
        from
    }
}

/// The last position at or before `to`, and not before `from`, in front
/// of which a character stays.
pub open spec fn trail(s: Seq<char>, kind: Strip, from: int, to: int) -> int
    decreases to - from,
{
    if 0 <= from < to <= s.len() && strips(kind, s[to - 1]) {
        trail(s, kind, from, to - 1)
    } else {
        to
    }
}

/// `s` without the characters at its two ends that `kind` takes off.
pub open spec fn stripped(s: Seq<char>, kind: Strip) -> Seq<char> {
    s.subrange(lead(s, kind, 0), trail(s, kind, lead(s, kind, 0), s.len() as int))
}

/// The first position at or behind `from` that holds `c`, or the length
/// of `s` if there is none.
pub open spec fn position(s: Seq<char>, c: char, from: int) -> int
    decreases s.len() - from,
{
    if 0 <= from < s.len() && s[from] != c {
        position(s, c, from + 1)
    } else {
        from
    }
}

/// The pieces between the occurrences of `c`. A text without `c` is one
/// piece, and so is the empty text.
pub open spec fn pieces(s: Seq<char>, c: char) -> Seq<Seq<char>>
    decreases s.len(),
{
    if position(s, c, 0) >= s.len() {
        seq![s]
    } else {
        proof {
            lemma_position(s, c, 0);
        }
        seq![s.take(position(s, c, 0))] + pieces(s.skip(position(s, c, 0) + 1), c)
    }
}

/// Whether `a` comes before `b` in the order of a dictionary whose
/// alphabet is the code points.
pub open spec fn lex_less(a: Seq<char>, b: Seq<char>) -> bool
    decreases a.len(),
{
    if b.len() == 0 {
        false
    } else if a.len() == 0 {
        true
    } else if a[0] != b[0] {
        a[0] < b[0]
    } else {
        lex_less(a.drop_first(), b.drop_first())
    }
}

/// A character is found at or behind where it is looked for, or the text
/// ends.
pub proof fn lemma_position(s: Seq<char>, c: char, from: int)
    requires
        0 <= from <= s.len(),
    ensures
        from <= position(s, c, from) <= s.len(),
    decreases s.len() - from,
{
    if from < s.len() && s[from] != c {
        lemma_position(s, c, from + 1);
    }
}

fn white(c: char) -> (r: bool)
    ensures
        r == is_white(c),
{
    ('\u{9}' <= c && c <= '\u{D}') || c == ' ' || c == '\u{85}' || c == '\u{A0}' || c == '\u{1680}'
        || ('\u{2000}' <= c && c <= '\u{200A}') || c == '\u{2028}' || c == '\u{2029}' || c
        == '\u{202F}' || c == '\u{205F}' || c == '\u{3000}'
}

fn taken_off(kind: Strip, c: char) -> (r: bool)
    ensures
        r == strips(kind, c),
{
    match kind {
        Strip::White => white(c),
        Strip::Quotes => c == '"',
        Strip::Brackets => c == '[' || c == ']',
    }
}

/// The characters `s[from..to]`.
pub fn slice_of(s: &Vec<char>, from: usize, to: usize) -> (r: Vec<char>)
    requires
        from <= to <= s.len(),
    ensures
        r@ == s@.subrange(from as int, to as int),
{
    let mut r: Vec<char> = Vec::new();
    let mut i = from;
    while i < to
        invariant
            from <= i <= to <= s.len(),
            r@ == s@.subrange(from as int, i as int),
        decreases to - i,
    {
        r.push(s[i]);
        i += 1;
    }
    r
}

/// `s` without the characters at its two ends that `kind` takes off.
pub fn strip(s: &Vec<char>, kind: Strip) -> (r: Vec<char>)
    ensures
        r@ == stripped(s@, kind),
{
    let mut a: usize = 0;
    while a < s.len() && taken_off(kind, s[a])
        invariant
            a <= s.len(),
            lead(s@, kind, 0) == lead(s@, kind, a as int),
        decreases s.len() - a,
    {
        a += 1;
    }
    let mut b: usize = s.len();
    while a < b && taken_off(kind, s[b - 1])
        invariant
            a <= b <= s.len(),
            trail(s@, kind, a as int, s.len() as int) == trail(s@, kind, a as int, b as int),
        decreases b - a,
    {
        b -= 1;
    }
    slice_of(s, a, b)
}

/// The first position at or behind `from` that holds `c`.
pub fn find(s: &Vec<char>, c: char, from: usize) -> (r: usize)
    requires
        from <= s.len(),
    ensures
        r == position(s@, c, from as int),
        from <= r <= s.len(),
{
    let mut i = from;
    while i < s.len() && s[i] != c
        invariant
            from <= i <= s.len(),
            position(s@, c, from as int) == position(s@, c, i as int),
        decreases s.len() - i,
    {
        i += 1;
    }
    i
}

/// The characters of each piece.
pub open spec fn pieces_model(ps: Seq<Vec<char>>) -> Seq<Seq<char>> {
    Seq::new(ps.len(), |i: int| ps[i]@)
}

proof fn lemma_position_shift(s: Seq<char>, c: char, k: int, from: int)
    requires
        0 <= k <= s.len(),
        0 <= from <= s.len() - k,
    ensures
        position(s, c, k + from) == k + position(s.skip(k), c, from),
    decreases s.len() - k - from,
{
    if from < s.len() - k && s[k + from] != c {
        lemma_position_shift(s, c, k, from + 1);
    }
}

/// The pieces of `s` between the occurrences of `c`.
pub fn split(s: &Vec<char>, c: char) -> (r: Vec<Vec<char>>)
    ensures
        pieces_model(r@) == pieces(s@, c),
{
    let mut out: Vec<Vec<char>> = Vec::new();
    let mut start: usize = 0;
    assert(s@.skip(0) =~= s@);
    assert(pieces_model(out@) + pieces(s@, c) =~= pieces(s@, c));
    loop
        invariant
            start <= s.len(),
            pieces(s@, c) == pieces_model(out@) + pieces(s@.skip(start as int), c),
        decreases s.len() - start,
    {
        let ghost rest = s@.skip(start as int);
        let ghost before = pieces_model(out@);
        let at = find(s, c, start);
        proof {
            lemma_position_shift(s@, c, start as int, 0);
        }
        let piece = slice_of(s, start, at);
        if at >= s.len() {
            assert(piece@ =~= rest);
            out.push(piece);
            assert(pieces_model(out@) =~= before + pieces(rest, c));
            return out;
        }
        assert(piece@ =~= rest.take(at - start));
        assert(rest.skip(at - start + 1) =~= s@.skip(at as int + 1));
        out.push(piece);
        assert(pieces_model(out@) =~= before.push(piece@));
        assert(before + (seq![piece@] + pieces(s@.skip(at as int + 1), c)) =~= before.push(
            piece@,
        ) + pieces(s@.skip(at as int + 1), c));
        start = at + 1;
    }
}

/// Whether `a` comes before `b` in the order of a dictionary.
pub fn less(a: &Vec<char>, b: &Vec<char>) -> (r: bool)
    ensures
        r == lex_less(a@, b@),
{
    let mut i: usize = 0;
    assert(a@.skip(0) =~= a@ && b@.skip(0) =~= b@);
    loop
        invariant
            i <= a.len(),
            i <= b.len(),
            lex_less(a@, b@) == lex_less(a@.skip(i as int), b@.skip(i as int)),
        decreases a.len() - i,
    {
        if i >= b.len() {
            return false;
        }
        if i >= a.len() {
            return true;
        }
        assert(a@.skip(i as int)[0] == a@[i as int]);
        assert(b@.skip(i as int)[0] == b@[i as int]);
        if a[i] != b[i] {
            return a[i] < b[i];
        }
        assert(a@.skip(i as int).drop_first() =~= a@.skip(i as int + 1));
        assert(b@.skip(i as int).drop_first() =~= b@.skip(i as int + 1));
        i += 1;
    }
}

} // verus!
