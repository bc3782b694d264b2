//! Character-level helpers over `str` values.

use vstd::prelude::*;
use vstd::std_specs::iter::IteratorSpec;

verus! {

/// The characters of `s`, in order.
pub fn chars_of(s: &str) -> (v: Vec<char>)
    ensures
        v@ == s@,
{
    let mut v: Vec<char> = Vec::new();
    let mut it = s.chars();
    loop
        invariant
            it.remaining() == s@.skip(v.len() as int),
            v@ == s@.take(v.len() as int),
            v.len() <= s@.len(),
        ensures
            v@ == s@,
        decreases s@.len() - v.len(),
    {
        match it.next() {
            Some(c) => { v.push(c); },
            None => { break; },
        }
    }
    v
}


/// Unicode `White_Space`: the characters that `str::trim` removes.
pub open spec fn is_white_space(c: char) -> bool {
    let x = c as int;
    ||| 0x09 <= x <= 0x0D
    ||| x == 0x20
    ||| x == 0x85
    ||| x == 0xA0
    ||| x == 0x1680
    ||| 0x2000 <= x <= 0x200A
    ||| x == 0x2028
    ||| x == 0x2029
    ||| x == 0x202F
    ||| x == 0x205F
    ||| x == 0x3000
}

/// `s` without its leading white space.
pub open spec fn trim_start(s: Seq<char>) -> Seq<char>
    decreases s.len(),
{
    if s.len() > 0 && is_white_space(s[0]) {
        trim_start(s.drop_first())
    } else {
        s
    }
}

/// `s` without its trailing white space.
pub open spec fn trim_end(s: Seq<char>) -> Seq<char>
    decreases s.len(),
{
    if s.len() > 0 && is_white_space(s.last()) {
        trim_end(s.drop_last())
    } else {
        s
    }
}

/// `s` without leading and trailing white space, as `str::trim` gives it.
pub open spec fn trim(s: Seq<char>) -> Seq<char> {
    trim_end(trim_start(s))
}

/// Whether `c` is Unicode white space.
pub fn white_space(c: char) -> (r: bool)
    ensures
        r == is_white_space(c),
{
    let x = c as u32;
    (0x09 <= x && x <= 0x0D) || x == 0x20 || x == 0x85 || x == 0xA0 || x == 0x1680 || (0x2000
        <= x && x <= 0x200A) || x == 0x2028 || x == 0x2029 || x == 0x202F || x == 0x205F || x
        == 0x3000
}

/// The bounds, within `lo..hi`, of the characters of `v` that remain once
/// the range is trimmed.
pub fn trimmed_range(v: &Vec<char>, lo: usize, hi: usize) -> (r: (usize, usize))
    requires
        lo <= hi <= v.len(),
    ensures
        lo <= r.0 <= r.1 <= hi,
        v@.subrange(r.0 as int, r.1 as int) == trim(v@.subrange(lo as int, hi as int)),
{
    let mut a = lo;
    while a < hi && white_space(v[a])
        invariant
            lo <= a <= hi <= v.len(),
            trim_start(v@.subrange(lo as int, hi as int)) == trim_start(v@.subrange(a as int, hi as int)),
        decreases hi - a,
    {
        assert(v@.subrange(a as int, hi as int).drop_first() =~= v@.subrange(a + 1, hi as int));
        a = a + 1;
    }
    let mut b = hi;
    while b > a && white_space(v[b - 1])
        invariant
            lo <= a <= b <= hi <= v.len(),
            trim_end(v@.subrange(a as int, hi as int)) == trim_end(v@.subrange(a as int, b as int)),
        decreases b - a,
    {
        assert(v@.subrange(a as int, b as int).drop_last() =~= v@.subrange(a as int, b - 1));
        b = b - 1;
    }
    (a, b)
}

/// `c` with an ASCII capital letter taken to its lower case, as a code point.
pub open spec fn ascii_lower_code(c: char) -> int {
    if 0x41 <= (c as int) <= 0x5A {
        (c as int) + 32
    } else {
        c as int
    }
}

/// `s`, lower-cased as `str::to_ascii_lowercase` does, equals `t`.
pub open spec fn lowercases_to(s: Seq<char>, t: Seq<char>) -> bool {
    &&& s.len() == t.len()
    &&& forall|i: int| 0 <= i < s.len() ==> ascii_lower_code(#[trigger] s[i]) == t[i] as int
}

/// The code point of `c`.
fn code(c: char) -> (r: u32)
    ensures
        r == c as int,
{
    c as u32
}

/// The code point of `c`, ASCII capitals lower-cased.
fn lower_code(c: char) -> (r: u32)
    ensures
        r == ascii_lower_code(c),
{
    let x = code(c);
    if 0x41 <= x && x <= 0x5A {
        x + 32
    } else {
        x
    }
}

/// Whether `s`, ASCII-lower-cased, equals `t`.
pub fn eq_lowercased(s: &str, t: &str) -> (r: bool)
    ensures
        r == lowercases_to(s@, t@),
{
    let x = chars_of(s);
    let y = chars_of(t);
    if x.len() != y.len() {
        return false;
    }
    let mut i: usize = 0;
    while i < x.len()
        invariant
            x@ == s@,
            y@ == t@,
            x.len() == y.len(),
            i <= x.len(),
            forall|k: int| 0 <= k < i ==> ascii_lower_code(#[trigger] x@[k]) == y@[k] as int,
        decreases x.len() - i,
    {
        let xc = x[i];
        let yc = y[i];
        if lower_code(xc) != code(yc) {
            assert(ascii_lower_code(x@[i as int]) != y@[i as int] as int);
            return false;
        }
        i = i + 1;
    }
    true
}

/// Number of UTF-8 bytes that encode `c`.
pub open spec fn char_width(c: char) -> nat {
    if (c as int) < 0x80 {
        1
    } else if (c as int) < 0x800 {
        2
    } else if (c as int) < 0x10000 {
        3
    } else {
        4
    }
}

/// Number of UTF-8 bytes that encode `s`: its length as `str::len` gives it.
pub open spec fn utf8_len(s: Seq<char>) -> nat
    decreases s.len(),
{
    if s.len() == 0 {
        0
    } else {
        utf8_len(s.drop_last()) + char_width(s.last())
    }
}

/// Number of UTF-8 bytes that encode `c`.
pub fn utf8_width(c: char) -> (r: usize)
    ensures
        r == char_width(c),
        1 <= r <= 4,
{
    let x = c as u32;
    if x < 0x80 {
        1
    } else if x < 0x800 {
        2
    } else if x < 0x10000 {
        3
    } else {
        4
    }
}

/// The byte length of a prefix does not exceed that of a longer prefix.
pub proof fn lemma_utf8_len_prefix_monotonic(s: Seq<char>, i: int, j: int)
    requires
        0 <= i <= j <= s.len(),
    ensures
        utf8_len(s.take(i)) <= utf8_len(s.take(j)),
    decreases j - i,
{
    if i < j {
        lemma_utf8_len_prefix_monotonic(s, i, j - 1);
        assert(s.take(j).drop_last() =~= s.take(j - 1));
    }
}

/// Number of characters in the longest prefix of `s` whose UTF-8 encoding
/// takes at most `budget` bytes.
pub open spec fn fit_len(s: Seq<char>, budget: nat) -> nat
    decreases s.len(),
{
    if s.len() == 0 || utf8_len(s) <= budget {
        s.len()
    } else {
        fit_len(s.drop_last(), budget)
    }
}

/// `j` is the length of the longest prefix of `s` that fits in `budget` bytes.
pub proof fn lemma_fit_len(s: Seq<char>, budget: nat, j: int)
    requires
        0 <= j <= s.len(),
        utf8_len(s.take(j)) <= budget,
        j == s.len() || utf8_len(s.take(j + 1)) > budget,
    ensures
        fit_len(s, budget) == j,
    decreases s.len(),
{
    if s.len() == 0 {
    } else if utf8_len(s) <= budget {
        if j < s.len() {
            lemma_utf8_len_prefix_monotonic(s, j + 1, s.len() as int);
            assert(s.take(s.len() as int) =~= s);
        }
    } else {
        if j == s.len() {
            assert(s.take(j) =~= s);
        }
        let t = s.drop_last();
        assert(t.take(j) =~= s.take(j));
        if j < t.len() {
            assert(t.take(j + 1) =~= s.take(j + 1));
        }
        lemma_fit_len(t, budget, j);
    }
}


/// Index of the first line feed of `s` at or after `i`; `s.len()` when there is none.
pub open spec fn newline_from(s: Seq<char>, i: int) -> int
    decreases s.len() - i,
{
    if i >= s.len() {
        s.len() as int
    } else if s[i] == '\n' {
        i
    } else {
        newline_from(s, i + 1)
    }
}

/// Where the search for a line feed stops.
pub proof fn lemma_newline_from(s: Seq<char>, i: int)
    requires
        0 <= i <= s.len(),
    ensures
        i <= newline_from(s, i) <= s.len(),
        newline_from(s, i) < s.len() ==> s[newline_from(s, i)] == '\n',
        forall|k: int| i <= k < newline_from(s, i) ==> s[k] != '\n',
    decreases s.len() - i,
{
    if i < s.len() && s[i] != '\n' {
        lemma_newline_from(s, i + 1);
    }
}

/// The first line feed at or after `start` is at `p`.
pub proof fn lemma_newline_at(s: Seq<char>, start: int, p: int)
    requires
        0 <= start <= p <= s.len(),
        forall|k: int| start <= k < p ==> s[k] != '\n',
        p == s.len() || s[p] == '\n',
    ensures
        newline_from(s, start) == p,
    decreases p - start,
{
    if start < p {
        lemma_newline_at(s, start + 1, p);
    }
}

/// The lines of `s` from position `start` on: the pieces between line feeds.
pub open spec fn lines_from(s: Seq<char>, start: int) -> Seq<Seq<char>>
    decreases s.len() - start,
{
    if start < 0 || start > s.len() {
        Seq::empty()
    } else {
        let k = newline_from(s, start);
        if k >= s.len() {
            seq![s.subrange(start, s.len() as int)]
        } else {
            proof {
                lemma_newline_from(s, start);
            }
            seq![s.subrange(start, k)] + lines_from(s, k + 1)
        }
    }
}

/// The pieces of `s` between line feeds, first to last. Once trimmed, these
/// are the lines that `str::lines` yields, apart from a last empty piece
/// after a final line feed, which `str::lines` leaves out.
pub open spec fn split_lines(s: Seq<char>) -> Seq<Seq<char>> {
    lines_from(s, 0)
}

/// Index of the first line feed in `v` at or after `from`, or `v.len()`.
pub fn find_newline(v: &Vec<char>, from: usize) -> (r: usize)
    requires
        from <= v.len(),
    ensures
        r == newline_from(v@, from as int),
{
    let mut p = from;
    while p < v.len() && v[p] != '\n'
        invariant
            from <= p <= v.len(),
            forall|k: int| from <= k < p ==> v@[k] != '\n',
        decreases v.len() - p,
    {
        p = p + 1;
    }
    proof {
        lemma_newline_at(v@, from as int, p as int);
    }
    p
}


/// Byte lengths add up over concatenation.
pub proof fn lemma_utf8_len_concat(a: Seq<char>, b: Seq<char>)
    ensures
        utf8_len(a + b) == utf8_len(a) + utf8_len(b),
    decreases b.len(),
{
    if b.len() > 0 {
        lemma_utf8_len_concat(a, b.drop_last());
        assert((a + b).drop_last() =~= a + b.drop_last());
    } else {
        assert(a + b =~= a);
    }
}

/// An ASCII sequence takes one byte per character.
pub proof fn lemma_utf8_len_ascii(s: Seq<char>)
    requires
        forall|i: int| 0 <= i < s.len() ==> (#[trigger] s[i] as int) < 0x80,
    ensures
        utf8_len(s) == s.len(),
    decreases s.len(),
{
    if s.len() > 0 {
        assert forall|i: int| 0 <= i < s.len() - 1 implies (#[trigger] s.drop_last()[i] as int) < 0x80 by {
            assert(s.drop_last()[i] == s[i]);
        }
        lemma_utf8_len_ascii(s.drop_last());
    }
}

/// The longest prefix that fits in `budget` bytes does fit.
pub proof fn lemma_fit_len_fits(s: Seq<char>, budget: nat)
    ensures
        fit_len(s, budget) <= s.len(),
        utf8_len(s.take(fit_len(s, budget) as int)) <= budget,
    decreases s.len(),
{
    if s.len() == 0 {
        assert(s.take(0) =~= s);
    } else if utf8_len(s) <= budget {
        assert(s.take(s.len() as int) =~= s);
    } else {
        lemma_fit_len_fits(s.drop_last(), budget);
        let k = fit_len(s.drop_last(), budget) as int;
        assert(s.drop_last().take(k) =~= s.take(k));
    }
}


/// [`utf8_len`] is the length of vstd's UTF-8 encoding of `s`, which is
/// what `str::len` returns.
pub proof fn lemma_utf8_len_is_encoded_length(s: Seq<char>)
    ensures
        utf8_len(s) == vstd::utf8::encode_utf8(s).len(),
    decreases s.len(),
{
    if s.len() > 0 {
        lemma_utf8_len_is_encoded_length(s.drop_first());
        lemma_utf8_len_concat(seq![s[0]], s.drop_first());
        assert(seq![s[0]] + s.drop_first() =~= s);
        assert(seq![s[0]].drop_last() =~= Seq::<char>::empty());
        lemma_char_width_encoded(s[0]);
        assert(utf8_len(Seq::<char>::empty()) == 0);
        assert(seq![s[0]].last() == s[0]);
        assert(utf8_len(seq![s[0]]) == char_width(s[0]));
    }
}

proof fn lemma_char_width_encoded(c: char)
    ensures
        vstd::utf8::encode_scalar(c as u32).len() == char_width(c),
{
    vstd::utf8::char_is_scalar(c);
    let v = c as u32;
    assert(v as int == c as int);
}

/// The longest prefix that fits is longest: one character more does not fit.
pub proof fn lemma_fit_len_maximal(s: Seq<char>, budget: nat)
    ensures
        fit_len(s, budget) < s.len() ==> utf8_len(s.take(fit_len(s, budget) as int + 1)) > budget,
    decreases s.len(),
{
    if s.len() > 0 && utf8_len(s) > budget {
        let t = s.drop_last();
        lemma_fit_len_maximal(t, budget);
        lemma_fit_len_fits(t, budget);
        let k = fit_len(t, budget) as int;
        if k < t.len() {
            assert(t.take(k + 1) =~= s.take(k + 1));
        } else {
            assert(s.take(k + 1) =~= s);
        }
    }
}

/// A character takes one to four bytes.
pub proof fn lemma_char_width_bounds(c: char)
    ensures
        1 <= char_width(c) <= 4,
{
}

/// Trimming keeps one contiguous run of `s`: everything dropped before or
/// after it is white space, and, unless nothing is left, the run starts and
/// ends with a character that is not.
pub proof fn lemma_trim_shape(s: Seq<char>)
    ensures
        exists|a: int, b: int|
            {
                &&& 0 <= a <= b <= s.len()
                &&& trim(s) == s.subrange(a, b)
                &&& forall|i: int| 0 <= i < a ==> is_white_space(#[trigger] s[i])
                &&& forall|i: int| b <= i < s.len() ==> is_white_space(#[trigger] s[i])
            },
        trim(s).len() > 0 ==> !is_white_space(trim(s)[0]) && !is_white_space(trim(s).last()),
        (forall|i: int| 0 <= i < s.len() ==> !is_white_space(#[trigger] s[i])) ==> trim(s) == s,
{
    let a = lemma_trim_start_shape(s);
    let rest = s.subrange(a, s.len() as int);
    let m = lemma_trim_end_shape(rest);
    assert(trim(s) =~= s.subrange(a, a + m));
    assert forall|i: int| a + m <= i < s.len() implies is_white_space(#[trigger] s[i]) by {
        assert(s[i] == rest[i - a]);
    }
    if trim(s).len() > 0 {
        assert(trim(s)[0] == rest[0]);
        assert(trim(s).last() == rest.take(m).last());
    }
    if forall|i: int| 0 <= i < s.len() ==> !is_white_space(#[trigger] s[i]) {
        if a > 0 {
            assert(is_white_space(s[0]));
        }
        if m < rest.len() {
            assert(is_white_space(rest[m as int]));
            assert(rest[m as int] == s[a + m]);
        }
        assert(trim(s) =~= s);
    }
}

proof fn lemma_trim_start_shape(s: Seq<char>) -> (a: int)
    ensures
        0 <= a <= s.len(),
        trim_start(s) == s.subrange(a, s.len() as int),
        forall|i: int| 0 <= i < a ==> is_white_space(#[trigger] s[i]),
        a < s.len() ==> !is_white_space(s[a]),
    decreases s.len(),
{
    if s.len() > 0 && is_white_space(s[0]) {
        let a1 = lemma_trim_start_shape(s.drop_first());
        assert(s.drop_first().subrange(a1, s.len() - 1) =~= s.subrange(a1 + 1, s.len() as int));
        assert forall|i: int| 0 <= i < a1 + 1 implies is_white_space(#[trigger] s[i]) by {
            if i > 0 {
                assert(s[i] == s.drop_first()[i - 1]);
            }
        }
        assert(a1 + 1 < s.len() ==> s[a1 + 1] == s.drop_first()[a1]);
        a1 + 1
    } else {
        assert(s.subrange(0, s.len() as int) =~= s);
        0
    }
}

proof fn lemma_trim_end_shape(s: Seq<char>) -> (m: int)
    ensures
        0 <= m <= s.len(),
        trim_end(s) == s.take(m),
        forall|i: int| m <= i < s.len() ==> is_white_space(#[trigger] s[i]),
        m > 0 ==> !is_white_space(s[m - 1]),
    decreases s.len(),
{
    if s.len() > 0 && is_white_space(s.last()) {
        let m1 = lemma_trim_end_shape(s.drop_last());
        assert(s.drop_last().take(m1) =~= s.take(m1));
        assert forall|i: int| m1 <= i < s.len() implies is_white_space(#[trigger] s[i]) by {
            if i < s.len() - 1 {
                assert(s[i] == s.drop_last()[i]);
            }
        }
        assert(m1 > 0 ==> s[m1 - 1] == s.drop_last()[m1 - 1]);
        m1
    } else {
        assert(s.take(s.len() as int) =~= s);
        s.len() as int
    }
}

/// The white space that trimming removes includes the ASCII blanks: space,
/// tab, line feed, carriage return, vertical tab and form feed.
pub proof fn lemma_ascii_white_space()
    ensures
        is_white_space(' '),
        is_white_space('\t'),
        is_white_space('\n'),
        is_white_space('\r'),
        is_white_space('\u{0B}'),
        is_white_space('\u{0C}'),
        !is_white_space('a'),
{
}

} // verus!
