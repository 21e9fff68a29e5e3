//! Character-level string helpers shared by the report builders.

use vstd::prelude::*;

verus! {

/// Appends one character with `String::push`, which adds the character at
/// the end of the string and changes nothing else.
#[verifier::external_body]
pub(crate) fn push_char(s: &mut String, c: char)
    ensures
        final(s)@ == old(s)@.push(c),
{
    s.push(c);
}

/// The characters of a string, in order.
pub fn chars_of(s: &str) -> (v: Vec<char>)
    ensures
        v@ == s@,
{
    let mut v: Vec<char> = Vec::new();
    for c in it: s.chars()
        invariant
            v@ == it.seq().take(it.index() as int),
            it.seq() == s@,
    {
        v.push(c);
    }
    v
}

/// Appends a character sequence to a string.
pub fn push_chars(s: &mut String, cs: &Vec<char>)
    ensures
        final(s)@ == old(s)@ + cs@,
{
    let ghost start = s@;
    let mut i: usize = 0;
    while i < cs.len()
        invariant
            i <= cs.len(),
            s@ == start + cs@.take(i as int),
        decreases cs.len() - i,
    {
        push_char(s, cs[i]);
        i += 1;
        assert(cs@.take(i as int) == cs@.take((i - 1) as int).push(cs@[i - 1]));
    }
    assert(cs@.take(cs.len() as int) == cs@);
}

/// A string holding the given characters.
pub fn string_from_chars(cs: &Vec<char>) -> (s: String)
    ensures
        s@ == cs@,
{
    let mut s = String::new();
    push_chars(&mut s, cs);
    s
}


/// The decimal digit character for `d` (which is below ten).
pub open spec fn digit_char(d: int) -> char {
    if d == 0 { '0' }
    else if d == 1 { '1' }
    else if d == 2 { '2' }
    else if d == 3 { '3' }
    else if d == 4 { '4' }
    else if d == 5 { '5' }
    else if d == 6 { '6' }
    else if d == 7 { '7' }
    else if d == 8 { '8' }
    else { '9' }
}

/// The decimal notation of `n`, as `{}` prints an unsigned integer:
/// no sign, no leading zeros, and "0" for zero.
pub open spec fn decimal(n: nat) -> Seq<char>
    decreases n,
{
    if n < 10 {
        seq![digit_char(n as int)]
    } else {
        decimal(n / 10).push(digit_char((n % 10) as int))
    }
}

/// `n` spaces.
pub open spec fn spaces(n: int) -> Seq<char> {
    Seq::new(if n > 0 { n as nat } else { 0 }, |i: int| ' ')
}

/// `s` followed by spaces up to `width` characters, as `{:<width$}` lays it out.
pub open spec fn pad_right(s: Seq<char>, width: int) -> Seq<char> {
    s + spaces(width - s.len())
}

/// `s` preceded by spaces up to `width` characters, as `{:>width$}` lays it out.
pub open spec fn pad_left(s: Seq<char>, width: int) -> Seq<char> {
    spaces(width - s.len()) + s
}

fn digit(d: usize) -> (c: char)
    requires
        d < 10,
    ensures
        c == digit_char(d as int),
{
    if d == 0 { '0' }
    else if d == 1 { '1' }
    else if d == 2 { '2' }
    else if d == 3 { '3' }
    else if d == 4 { '4' }
    else if d == 5 { '5' }
    else if d == 6 { '6' }
    else if d == 7 { '7' }
    else if d == 8 { '8' }
    else { '9' }
}

/// Appends the decimal notation of `n`.
pub fn push_decimal(s: &mut String, n: usize)
    ensures
        final(s)@ == old(s)@ + decimal(n as nat),
    decreases n,
{
    if n >= 10 {
        push_decimal(s, n / 10);
    }
    push_char(s, digit(n % 10));
    assert(final(s)@ == old(s)@ + decimal(n as nat)) by {
        if n >= 10 {
            assert(decimal(n as nat) == decimal((n / 10) as nat).push(digit_char((n % 10) as int)));
        }
    }
}

/// The decimal notation of `n`, as a character vector.
pub fn decimal_chars(n: usize) -> (r: Vec<char>)
    ensures
        r@ == decimal(n as nat),
    decreases n,
{
    let mut r = if n >= 10 {
        decimal_chars(n / 10)
    } else {
        Vec::new()
    };
    r.push(digit(n % 10));
    r
}

/// Whether two character vectors hold the same characters.
pub fn same_chars(a: &Vec<char>, b: &Vec<char>) -> (r: bool)
    ensures
        r == (a@ == b@),
{
    if a.len() != b.len() {
        return false;
    }
    let mut i: usize = 0;
    while i < a.len()
        invariant
            a.len() == b.len(),
            i <= a.len(),
            forall|k: int| 0 <= k < i ==> a@[k] == b@[k],
        decreases a.len() - i,
    {
        if a[i] != b[i] {
            return false;
        }
        i += 1;
    }
    assert(a@ =~= b@);
    true
}

/// The largest of the values, or zero when there are none.
pub open spec fn max_or_zero(s: Seq<int>) -> int
    decreases s.len(),
{
    if s.len() == 0 {
        0
    } else {
        let m = max_or_zero(s.drop_last());
        if s.last() > m { s.last() } else { m }
    }
}

/// Of values none of which is negative, `max_or_zero` is the largest: no
/// value exceeds it, and it is one of the values, or zero when there are none.
pub proof fn lemma_max_or_zero(s: Seq<int>)
    requires
        forall|i: int| 0 <= i < s.len() ==> #[trigger] s[i] >= 0,
    ensures
        forall|i: int| 0 <= i < s.len() ==> #[trigger] s[i] <= max_or_zero(s),
        s.len() == 0 ==> max_or_zero(s) == 0,
        s.len() > 0 ==> exists|i: int| 0 <= i < s.len() && #[trigger] s[i] == max_or_zero(s),
    decreases s.len(),
{
    if s.len() > 0 {
        let p = s.drop_last();
        assert forall|i: int| 0 <= i < p.len() implies #[trigger] p[i] >= 0 by {
            assert(p[i] == s[i]);
        }
        lemma_max_or_zero(p);
        assert forall|i: int| 0 <= i < s.len() implies #[trigger] s[i] <= max_or_zero(s) by {
            if i < p.len() {
                assert(s[i] == p[i]);
            }
        }
        if s.last() <= max_or_zero(p) && p.len() > 0 {
            let j = choose|j: int| 0 <= j < p.len() && #[trigger] p[j] == max_or_zero(p);
            assert(s[j] == p[j]);
        } else {
            assert(s[s.len() - 1] == s.last());
        }
    }
}

proof fn lemma_digit_char(d: int)
    requires
        0 <= d < 10,
    ensures
        (digit_char(d) as int) - ('0' as int) == d,
        '0' <= digit_char(d) <= '9',
{
}

/// The value of a string of decimal digits.
pub open spec fn digits_value(ds: Seq<char>) -> int
    decreases ds.len(),
{
    if ds.len() == 0 {
        0
    } else {
        10 * digits_value(ds.drop_last()) + ((ds.last() as int) - ('0' as int))
    }
}

/// The decimal notation of `n` reads back as `n`, is made of the digits
/// `0`..`9`, and has no leading zero unless it is the single digit of zero.
pub proof fn lemma_decimal(n: nat)
    ensures
        digits_value(decimal(n)) == n,
        decimal(n).len() >= 1,
        forall|i: int| 0 <= i < decimal(n).len() ==> '0' <= #[trigger] decimal(n)[i] <= '9',
        decimal(n)[0] == '0' ==> n == 0 && decimal(n).len() == 1,
    decreases n,
{
    lemma_digit_char((n % 10) as int);
    if n < 10 {
        let d = decimal(n);
        assert(d.drop_last() =~= Seq::<char>::empty());
        assert(digits_value(d) == 10 * digits_value(d.drop_last()) + ((d.last() as int) - ('0' as int)));
    }
    if n >= 10 {
        lemma_decimal(n / 10);
        let d = decimal(n);
        assert(d.drop_last() == decimal(n / 10));
        assert(d.last() == digit_char((n % 10) as int));
        assert(digits_value(d) == 10 * digits_value(decimal(n / 10)) + ((d.last() as int) - ('0' as int)));
        assert(n == 10 * (n / 10) + n % 10);
        assert(d[0] == decimal(n / 10)[0]);
        assert forall|i: int| 0 <= i < d.len() implies '0' <= #[trigger] d[i] <= '9' by {
            if i < d.len() - 1 {
                assert(d[i] == decimal(n / 10)[i]);
            }
        }
    }
}

/// The number of bytes of the UTF-8 encoding of `s`, as `str::len` reports
/// it (a `usize`, which every string held in memory fits).
pub open spec fn utf8_len(s: Seq<char>) -> int {
    (vstd::utf8::encode_utf8(s).len() as usize) as int
}

/// The UTF-8 length of a character vector, measured as `str::len` does.
pub fn utf8_len_of(cs: &Vec<char>) -> (n: usize)
    ensures
        n == utf8_len(cs@),
{
    let s = string_from_chars(cs);
    s.as_str().len()
}

/// The decimal notation of `n`, as `n.to_string()` gives it.
pub fn decimal_string(n: usize) -> (r: String)
    ensures
        r@ == decimal(n as nat),
{
    let mut r = String::new();
    push_decimal(&mut r, n);
    r
}

/// Appends `count` spaces.
pub fn push_spaces(s: &mut String, count: usize)
    ensures
        final(s)@ == old(s)@ + spaces(count as int),
{
    let ghost start = s@;
    let mut i: usize = 0;
    while i < count
        invariant
            i <= count,
            s@ == start + spaces(i as int),
        decreases count - i,
    {
        push_char(s, ' ');
        i += 1;
        assert(spaces(i as int) == spaces((i - 1) as int).push(' '));
    }
}

/// Appends `cs` padded with spaces on the right to `width` characters.
pub fn push_padded_right(s: &mut String, cs: &Vec<char>, width: usize)
    ensures
        final(s)@ == old(s)@ + pad_right(cs@, width as int),
{
    push_chars(s, cs);
    if cs.len() < width {
        push_spaces(s, width - cs.len());
    } else {
        assert(spaces(width - cs@.len()) == Seq::<char>::empty());
    }
}

/// Appends `cs` padded with spaces on the left to `width` characters.
pub fn push_padded_left(s: &mut String, cs: &Vec<char>, width: usize)
    ensures
        final(s)@ == old(s)@ + pad_left(cs@, width as int),
{
    if cs.len() < width {
        push_spaces(s, width - cs.len());
    } else {
        assert(spaces(width - cs@.len()) == Seq::<char>::empty());
    }
    push_chars(s, cs);
}


/// The index of the first `c` in `s` at or after `from`, or `s.len()` if there is none.
pub open spec fn find_from(s: Seq<char>, c: char, from: int) -> int
    decreases s.len() - from,
{
    if from >= s.len() {
        s.len() as int
    } else if s[from] == c {
        from
    } else {
        find_from(s, c, from + 1)
    }
}

/// `line` without one trailing carriage return.
pub open spec fn strip_cr(line: Seq<char>) -> Seq<char> {
    if line.len() > 0 && line.last() == '\r' {
        line.drop_last()
    } else {
        line
    }
}

/// The lines of `s` that start at or after `start`.
pub open spec fn lines_from(s: Seq<char>, start: int) -> Seq<Seq<char>>
    decreases s.len() - start,
{
    if start >= s.len() || start < 0 {
        Seq::empty()
    } else {
        let e = find_from(s, '\n', start);
        proof {
            lemma_find_from_bounds(s, '\n', start);
        }
        if e < s.len() {
            seq![strip_cr(s.subrange(start, e))] + lines_from(s, e + 1)
        } else {
            seq![s.subrange(start, s.len() as int)]
        }
    }
}

/// The lines of `s` as `str::lines` yields them: split at each `\n`, a `\r`
/// right before a `\n` dropped with it, and no empty line after a final `\n`.
pub open spec fn split_lines(s: Seq<char>) -> Seq<Seq<char>> {
    lines_from(s, 0)
}

/// How many `\n` characters `s` holds.
pub open spec fn newline_count(s: Seq<char>) -> int
    decreases s.len(),
{
    if s.len() == 0 {
        0
    } else {
        (if s[0] == '\n' { 1int } else { 0int }) + newline_count(s.skip(1))
    }
}

/// The lines joined back together, one `\n` between each two of them.
pub open spec fn join_lines(ls: Seq<Seq<char>>) -> Seq<char>
    decreases ls.len(),
{
    if ls.len() == 0 {
        Seq::empty()
    } else if ls.len() == 1 {
        ls[0]
    } else {
        ls[0] + seq!['\n'] + join_lines(ls.skip(1))
    }
}

/// The text ends in a line that no newline closes: it is not empty and its
/// last character is not a newline.
pub open spec fn unterminated(s: Seq<char>) -> bool {
    s.len() > 0 && s.last() != '\n'
}

proof fn lemma_newline_count_skip(s: Seq<char>, start: int, e: int)
    requires
        0 <= start <= e <= s.len(),
        forall|k: int| start <= k < e ==> s[k] != '\n',
    ensures
        newline_count(s.skip(start)) == newline_count(s.skip(e)),
    decreases e - start,
{
    if start < e {
        assert(s.skip(start).skip(1) =~= s.skip(start + 1));
        assert(s.skip(start)[0] == s[start]);
        lemma_newline_count_skip(s, start + 1, e);
    }
}

proof fn lemma_lines_from_count(s: Seq<char>, start: int)
    requires
        0 <= start <= s.len(),
    ensures
        lines_from(s, start).len() == newline_count(s.skip(start))
            + (if start < s.len() && s.last() != '\n' { 1int } else { 0int }),
        forall|i: int| 0 <= i < lines_from(s, start).len() ==> !(#[trigger] lines_from(s, start)[i]).contains('\n'),
    decreases s.len() - start,
{
    if start < s.len() {
        let e = find_from(s, '\n', start);
        lemma_find_from_bounds(s, '\n', start);
        lemma_newline_count_skip(s, start, e);
        let seg = s.subrange(start, e);
        assert(!seg.contains('\n')) by {
            if seg.contains('\n') {
                let j = choose|j: int| 0 <= j < seg.len() && seg[j] == '\n';
                assert(s[start + j] == '\n');
            }
        }
        if e < s.len() {
            lemma_lines_from_count(s, e + 1);
            assert(s.skip(e).skip(1) =~= s.skip(e + 1));
            assert(s.skip(e)[0] == s[e]);
            assert(!strip_cr(seg).contains('\n')) by {
                if strip_cr(seg).contains('\n') {
                    let j = choose|j: int| 0 <= j < strip_cr(seg).len() && strip_cr(seg)[j] == '\n';
                    assert(seg[j] == '\n');
                }
            }
            let ls = lines_from(s, start);
            assert(ls == seq![strip_cr(seg)] + lines_from(s, e + 1));
            assert forall|i: int| 0 <= i < ls.len() implies !(#[trigger] ls[i]).contains('\n') by {
                if i > 0 {
                    assert(ls[i] == lines_from(s, e + 1)[i - 1]);
                }
            }
            if e + 1 == s.len() {
                assert(s.last() == s[e]);
                assert(s.skip(e + 1).len() == 0);
            }
        } else {
            assert(s.skip(e).len() == 0);
            assert(s.last() == s[s.len() - 1]);
        }
    }
}

proof fn lemma_lines_from_join(s: Seq<char>, start: int)
    requires
        0 <= start <= s.len(),
        !s.contains('\r'),
    ensures
        s.skip(start) == join_lines(lines_from(s, start))
            + (if start < s.len() && s.last() == '\n' { seq!['\n'] } else { Seq::<char>::empty() }),
    decreases s.len() - start,
{
    if start < s.len() {
        let e = find_from(s, '\n', start);
        lemma_find_from_bounds(s, '\n', start);
        let seg = s.subrange(start, e);
        if e < s.len() {
            lemma_lines_from_join(s, e + 1);
            if seg.len() > 0 {
                assert(seg.last() == s[e - 1]);
                assert(s.contains(s[e - 1]));
            }
            assert(strip_cr(seg) == seg);
            let ls = lines_from(s, start);
            let rest = lines_from(s, e + 1);
            assert(ls == seq![seg] + rest);
            if e + 1 == s.len() {
                assert(rest.len() == 0);
                assert(ls =~= seq![seg]);
                assert(s.last() == s[e]);
                assert(s.skip(start) =~= seg + seq!['\n']);
            } else {
                assert(rest.len() > 0);
                assert(ls.skip(1) =~= rest);
                assert(ls[0] == seg);
                assert(s.skip(start) =~= seg + seq!['\n'] + s.skip(e + 1));
            }
        } else {
            assert(s.skip(start) =~= seg);
            assert(s.last() == s[s.len() - 1]);
        }
    }
}

/// `str::lines` yields one line per newline, and one more for a last line
/// that no newline ends; no line holds a newline.
pub proof fn lemma_split_lines_count(s: Seq<char>)
    ensures
        split_lines(s).len() == newline_count(s) + (if unterminated(s) { 1int } else { 0int }),
        forall|i: int| 0 <= i < split_lines(s).len() ==> !(#[trigger] split_lines(s)[i]).contains('\n'),
{
    lemma_lines_from_count(s, 0);
    assert(s.skip(0) =~= s);
}

/// In a text without carriage returns, the lines joined with newlines give
/// the text back, short of the final newline when it has one: no character
/// is lost, changed or repeated.
pub proof fn lemma_split_lines_join(s: Seq<char>)
    requires
        !s.contains('\r'),
    ensures
        s == join_lines(split_lines(s)) + (if s.len() > 0 && s.last() == '\n' { seq!['\n'] } else { Seq::<char>::empty() }),
{
    lemma_lines_from_join(s, 0);
    assert(s.skip(0) =~= s);
}

/// `find_from` lands on the first `c` at or after `from`, or on the end.
pub proof fn lemma_find_from_bounds(s: Seq<char>, c: char, from: int)
    requires
        0 <= from <= s.len(),
    ensures
        from <= find_from(s, c, from) <= s.len(),
        find_from(s, c, from) < s.len() ==> s[find_from(s, c, from)] == c,
        forall|k: int| from <= k < find_from(s, c, from) ==> s[k] != c,
    decreases s.len() - from,
{
    if from < s.len() && s[from] != c {
        lemma_find_from_bounds(s, c, from + 1);
    }
}

/// Where no `c` stands between `from` and `to`, searching from either gives the same index.
pub proof fn lemma_find_from_skip(s: Seq<char>, c: char, from: int, to: int)
    requires
        0 <= from <= to <= s.len(),
        forall|k: int| from <= k < to ==> s[k] != c,
    ensures
        find_from(s, c, from) == find_from(s, c, to),
    decreases to - from,
{
    if from < to {
        lemma_find_from_skip(s, c, from + 1, to);
    }
}

/// A copy of `v[lo..hi]`.
pub fn copy_range(v: &Vec<char>, lo: usize, hi: usize) -> (r: Vec<char>)
    requires
        lo <= hi <= v.len(),
    ensures
        r@ == v@.subrange(lo as int, hi as int),
{
    let mut r: Vec<char> = Vec::new();
    let mut i = lo;
    while i < hi
        invariant
            lo <= i <= hi <= v.len(),
            r@ == v@.subrange(lo as int, i as int),
        decreases hi - i,
    {
        r.push(v[i]);
        i += 1;
        assert(r@ == v@.subrange(lo as int, i as int));
    }
    r
}

/// Splits a character sequence into lines, as `str::lines` does.
pub fn split_lines_of(s: &Vec<char>) -> (lines: Vec<Vec<char>>)
    ensures
        lines.deep_view() == split_lines(s@),
{
    let mut lines: Vec<Vec<char>> = Vec::new();
    let mut start: usize = 0;
    let mut i: usize = 0;
    while i < s.len()
        invariant
            start <= i <= s.len(),
            forall|k: int| start <= k < i ==> s@[k] != '\n',
            lines.deep_view() + lines_from(s@, start as int) == split_lines(s@),
        decreases s.len() - i,
    {
        if s[i] == '\n' {
            proof {
                lemma_find_from_skip(s@, '\n', start as int, i as int);
            }
            let mut line = copy_range(s, start, i);
            if line.len() > 0 && line[line.len() - 1] == '\r' {
                line.pop();
            }
            let ghost before = lines.deep_view();
            assert(line.deep_view() =~= line@);
            lines.push(line);
            assert(lines.deep_view() =~= before.push(strip_cr(s@.subrange(start as int, i as int))));
            assert(lines_from(s@, start as int) == seq![strip_cr(s@.subrange(start as int, i as int))]
                + lines_from(s@, i + 1));
            start = i + 1;
        }
        i += 1;
    }
    if start < s.len() {
        proof {
            lemma_find_from_skip(s@, '\n', start as int, s.len() as int);
        }
        let line = copy_range(s, start, s.len());
        let ghost before = lines.deep_view();
        assert(line.deep_view() =~= line@);
        lines.push(line);
        assert(lines.deep_view() =~= before.push(s@.subrange(start as int, s@.len() as int)));
    }
    lines
}

} // verus!
