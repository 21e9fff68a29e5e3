//! Recognising kill events in log lines: `'<killer>' killed '<victim>'`
//! anywhere in a line, where neither name is empty or holds a quote.

use vstd::prelude::*;
use crate::text::{
    copy_range, decimal, decimal_chars, find_from, lemma_find_from_bounds, lemma_find_from_skip, max_or_zero, same_chars,
    utf8_len, utf8_len_of,
};

verus! {

/// The text between the two names: a quote, ` killed `, a quote.
pub open spec fn killed_infix() -> Seq<char> {
    seq!['\'', ' ', 'k', 'i', 'l', 'l', 'e', 'd', ' ', '\'']
}

/// Where the killer's name ends, for a match that opens at `i`.
pub open spec fn killer_end(line: Seq<char>, i: int) -> int {
    find_from(line, '\'', i + 1)
}

/// Where the victim's name ends, for a match that opens at `i`.
pub open spec fn victim_end(line: Seq<char>, i: int) -> int {
    find_from(line, '\'', killer_end(line, i) + 10)
}

/// The pattern `'([^']+)' killed '([^']+)'` matches at `i`. A name runs to
/// the next quote, so there is at most one match at each position.
pub open spec fn kill_match_at(line: Seq<char>, i: int) -> bool {
    let e1 = killer_end(line, i);
    let e2 = victim_end(line, i);
    &&& 0 <= i < line.len()
    &&& line[i] == '\''
    &&& i + 1 < e1
    &&& e1 + 10 <= line.len()
    &&& line.subrange(e1, e1 + 10) == killed_infix()
    &&& e1 + 10 < e2 < line.len()
}

/// The leftmost position at or after `from` where the pattern matches.
pub open spec fn first_match_from(line: Seq<char>, from: int) -> Option<int>
    decreases line.len() - from,
{
    if from >= line.len() || from < 0 {
        None
    } else if kill_match_at(line, from) {
        Some(from)
    } else {
        first_match_from(line, from + 1)
    }
}

/// The killer and the victim of the leftmost match in the line, as the
/// pattern's two capture groups give them.
pub open spec fn kill_event(line: Seq<char>) -> Option<(Seq<char>, Seq<char>)> {
    match first_match_from(line, 0) {
        Some(i) => Some((
            line.subrange(i + 1, killer_end(line, i)),
            line.subrange(killer_end(line, i) + 10, victim_end(line, i)),
        )),
        None => None,
    }
}

/// The text at `i` reads `'<killer>' killed '<victim>'`, with the killer's
/// name running up to `e1` and the victim's up to `e2`: a quote, a non-empty
/// run without quotes, `' killed '`, a non-empty run without quotes, a quote.
pub open spec fn kill_shape(line: Seq<char>, i: int, e1: int, e2: int) -> bool {
    &&& 0 <= i
    &&& i + 1 < e1
    &&& e1 + 10 < e2 < line.len()
    &&& line[i] == '\''
    &&& forall|k: int| i + 1 <= k < e1 ==> line[k] != '\''
    &&& line.subrange(e1, e1 + 10) == killed_infix()
    &&& forall|k: int| e1 + 10 <= k < e2 ==> line[k] != '\''
    &&& line[e2] == '\''
}

/// The pattern matches at `i` exactly when the text there has the shape of
/// a kill, and then the names end where that shape says.
pub proof fn lemma_kill_match_shape(line: Seq<char>, i: int)
    ensures
        kill_match_at(line, i) <==> kill_shape(line, i, killer_end(line, i), victim_end(line, i)),
        forall|e1: int, e2: int| #[trigger] kill_shape(line, i, e1, e2) ==>
            e1 == killer_end(line, i) && e2 == victim_end(line, i) && kill_match_at(line, i),
{
    if 0 <= i < line.len() {
        lemma_find_from_bounds(line, '\'', i + 1);
        let e1 = killer_end(line, i);
        if e1 + 10 <= line.len() {
            lemma_find_from_bounds(line, '\'', e1 + 10);
        }
    }
    assert forall|e1: int, e2: int| #[trigger] kill_shape(line, i, e1, e2) implies
        e1 == killer_end(line, i) && e2 == victim_end(line, i) && kill_match_at(line, i) by {
        lemma_find_from_skip(line, '\'', i + 1, e1);
        assert(line.subrange(e1, e1 + 10)[0] == line[e1]);
        assert(find_from(line, '\'', e1) == e1);
        lemma_find_from_skip(line, '\'', e1 + 10, e2);
        assert(find_from(line, '\'', e2) == e2);
    }
    if kill_match_at(line, i) {
        let e1 = killer_end(line, i);
        let e2 = victim_end(line, i);
        lemma_find_from_bounds(line, '\'', i + 1);
        lemma_find_from_bounds(line, '\'', e1 + 10);
        assert(line.subrange(e1, e1 + 10)[0] == line[e1]);
    }
}

/// `first_match_from` finds the leftmost match at or after `from`, and none
/// only when no position from there on matches.
pub proof fn lemma_first_match_leftmost(line: Seq<char>, from: int)
    requires
        0 <= from,
    ensures
        forall|i: int| first_match_from(line, from) == Some(i) <==>
            (from <= i && kill_match_at(line, i)
                && forall|j: int| from <= j < i ==> !kill_match_at(line, j)),
        first_match_from(line, from) is None <==> forall|i: int| from <= i ==> !kill_match_at(line, i),
    decreases line.len() - from,
{
    if from < line.len() {
        lemma_first_match_leftmost(line, from + 1);
        if kill_match_at(line, from) {
            assert forall|i: int| first_match_from(line, from) == Some(i) <==>
                (from <= i && kill_match_at(line, i)
                    && forall|j: int| from <= j < i ==> !kill_match_at(line, j)) by {
                if i > from && kill_match_at(line, i) && forall|j: int| from <= j < i ==> !kill_match_at(line, j) {
                    assert(!kill_match_at(line, from));
                }
            }
        } else {
            assert forall|i: int| from <= i implies (!kill_match_at(line, i) <==> (from + 1 <= i ==> !kill_match_at(line, i))) by {}
            assert forall|i: int| first_match_from(line, from) == Some(i) <==>
                (from <= i && kill_match_at(line, i)
                    && forall|j: int| from <= j < i ==> !kill_match_at(line, j)) by {
                if from <= i && kill_match_at(line, i) && forall|j: int| from <= j < i ==> !kill_match_at(line, j) {
                    assert(i != from);
                    assert forall|j: int| from + 1 <= j < i implies !kill_match_at(line, j) by {}
                }
                if first_match_from(line, from) == Some(i) {
                    assert forall|j: int| from <= j < i implies !kill_match_at(line, j) by {
                        if j > from {}
                    }
                }
            }
        }
    } else {
        assert forall|i: int| from <= i implies !kill_match_at(line, i) by {}
    }
}

/// A kill event is read from the leftmost place where the pattern matches:
/// the killer and victim are the two quoted names there. A line records no
/// kill only when the pattern matches nowhere in it.
pub proof fn lemma_kill_event_leftmost(line: Seq<char>)
    ensures
        kill_event(line) is None <==> forall|i: int| !kill_match_at(line, i),
        forall|i: int, e1: int, e2: int|
            #[trigger] kill_shape(line, i, e1, e2) && (forall|j: int| 0 <= j < i ==> !kill_match_at(line, j))
            ==> kill_event(line) == Some((line.subrange(i + 1, e1), line.subrange(e1 + 10, e2))),
{
    lemma_first_match_leftmost(line, 0);
    assert forall|i: int| 0 <= i || !kill_match_at(line, i) by {}
    assert forall|i: int, e1: int, e2: int|
        #[trigger] kill_shape(line, i, e1, e2) && (forall|j: int| 0 <= j < i ==> !kill_match_at(line, j))
        implies kill_event(line) == Some((line.subrange(i + 1, e1), line.subrange(e1 + 10, e2))) by {
        lemma_kill_match_shape(line, i);
        assert(first_match_from(line, 0) == Some(i));
    }
}

/// A kill event names the two quoted names at a leftmost place where the
/// text has the shape of a kill.
pub proof fn lemma_kill_event_shape(line: Seq<char>)
    ensures
        kill_event(line) matches Some((k, v)) ==> exists|i: int, e1: int, e2: int|
            #[trigger] kill_shape(line, i, e1, e2)
            && (forall|j: int| 0 <= j < i ==> !kill_match_at(line, j))
            && k == line.subrange(i + 1, e1) && v == line.subrange(e1 + 10, e2),
{
    lemma_first_match_leftmost(line, 0);
    if let Some(i) = first_match_from(line, 0) {
        lemma_kill_match_shape(line, i);
        let e1 = killer_end(line, i);
        let e2 = victim_end(line, i);
        assert(kill_shape(line, i, e1, e2));
    }
}

/// The position of the first quote at or after `from`, or the length.
fn find_quote(line: &Vec<char>, from: usize) -> (r: usize)
    requires
        from <= line.len(),
    ensures
        r == find_from(line@, '\'', from as int),
{
    let mut k = from;
    while k < line.len() && line[k] != '\''
        invariant
            from <= k <= line.len(),
            find_from(line@, '\'', from as int) == find_from(line@, '\'', k as int),
        decreases line.len() - k,
    {
        k += 1;
    }
    k
}

fn infix_at(line: &Vec<char>, at: usize) -> (b: bool)
    requires
        at + 10 <= line.len(),
    ensures
        b == (line@.subrange(at as int, at + 10) == killed_infix()),
{
    let b = line[at] == '\'' && line[at + 1] == ' ' && line[at + 2] == 'k' && line[at + 3] == 'i'
        && line[at + 4] == 'l' && line[at + 5] == 'l' && line[at + 6] == 'e' && line[at + 7] == 'd'
        && line[at + 8] == ' ' && line[at + 9] == '\'';
    assert(b ==> line@.subrange(at as int, at + 10) =~= killed_infix());
    assert(line@.subrange(at as int, at + 10) == killed_infix() ==> b) by {
        if line@.subrange(at as int, at + 10) == killed_infix() {
            assert(line@.subrange(at as int, at + 10)[0] == line@[at as int]);
        }
    }
    b
}

/// The killer and the victim named in a log line, if it records a kill.
pub fn parse_kill(line: &Vec<char>) -> (r: Option<(Vec<char>, Vec<char>)>)
    ensures
        r is Some <==> kill_event(line@) is Some,
        r matches Some((k, v)) ==> (k@, v@) == kill_event(line@)->0,
        r is None <==> forall|i: int| !kill_match_at(line@, i),
        r matches Some((k, v)) ==> exists|i: int, e1: int, e2: int|
            #[trigger] kill_shape(line@, i, e1, e2)
            && (forall|j: int| 0 <= j < i ==> !kill_match_at(line@, j))
            && k@ == line@.subrange(i + 1, e1) && v@ == line@.subrange(e1 + 10, e2),
{
    let n = line.len();
    let mut i: usize = 0;
    while i < n
        invariant
            n == line.len(),
            i <= n,
            first_match_from(line@, 0) == first_match_from(line@, i as int),
        decreases n - i,
    {
        if line[i] == '\'' {
            let e1 = find_quote(line, i + 1);
            proof {
                lemma_find_from_bounds(line@, '\'', i + 1);
            }
            if i + 1 < e1 && e1 <= n && n - e1 >= 10 && infix_at(line, e1) {
                let e2 = find_quote(line, e1 + 10);
                proof {
                    lemma_find_from_bounds(line@, '\'', e1 + 10);
                }
                if e1 + 10 < e2 && e2 < n {
                    assert(kill_match_at(line@, i as int));
                    let killer = copy_range(line, i + 1, e1);
                    let victim = copy_range(line, e1 + 10, e2);
                    proof {
                        lemma_kill_event_leftmost(line@);
                        lemma_kill_event_shape(line@);
                    }
                    return Some((killer, victim));
                }
            }
        }
        assert(!kill_match_at(line@, i as int));
        i += 1;
    }
    proof {
        lemma_kill_event_leftmost(line@);
    }
    None
}

/// The first entry among the first `n` whose name is `name`, or -1.
pub open spec fn entry_index(names: Seq<Seq<char>>, name: Seq<char>, n: int) -> int
    decreases n,
{
    if n <= 0 {
        -1
    } else {
        let k = entry_index(names, name, n - 1);
        if k >= 0 {
            k
        } else if names[n - 1] == name {
            n - 1
        } else {
            -1
        }
    }
}

/// The position of the first name equal to `name`, if any.
pub fn find_entry(names: &Vec<Vec<char>>, name: &Vec<char>) -> (r: Option<usize>)
    ensures
        r matches Some(k) ==> k < names.len() && entry_index(names.deep_view(), name@, names.len() as int) == k,
        r is None ==> entry_index(names.deep_view(), name@, names.len() as int) == -1,
{
    let ghost ns = names.deep_view();
    let mut k: usize = 0;
    while k < names.len()
        invariant
            k <= names.len(),
            ns == names.deep_view(),
            entry_index(ns, name@, k as int) == -1,
        decreases names.len() - k,
    {
        assert(names@[k as int].deep_view() =~= names@[k as int]@);
        if same_chars(&names[k], name) {
            assert(entry_index(ns, name@, k + 1) == k);
            let ghost j = k + 1;
            assert forall|m: int| j <= m <= names.len() implies entry_index(ns, name@, m) == k by {
                lemma_entry_index_stays(ns, name@, j, m);
            }
            return Some(k);
        }
        k += 1;
    }
    None
}

/// `entry_index` finds the first matching name, and -1 only when none matches.
pub proof fn lemma_entry_index(names: Seq<Seq<char>>, name: Seq<char>, n: int)
    requires
        0 <= n <= names.len(),
    ensures
        -1 <= entry_index(names, name, n) < n,
        entry_index(names, name, n) >= 0 ==> names[entry_index(names, name, n)] == name,
        forall|j: int| 0 <= j < n && names[j] == name ==> entry_index(names, name, n) >= 0 && entry_index(names, name, n) <= j,
    decreases n,
{
    if n > 0 {
        lemma_entry_index(names, name, n - 1);
    }
}

proof fn lemma_entry_index_stays(names: Seq<Seq<char>>, name: Seq<char>, j: int, m: int)
    requires
        0 <= j <= m,
        entry_index(names, name, j) >= 0,
    ensures
        entry_index(names, name, m) == entry_index(names, name, j),
    decreases m - j,
{
    if j < m {
        lemma_entry_index_stays(names, name, j, m - 1);
    }
}

/// The widest name, in UTF-8 bytes as `str::len` counts them.
pub open spec fn name_width(names: Seq<Seq<char>>) -> int {
    max_or_zero(names.map_values(|n: Seq<char>| utf8_len(n)))
}

/// The widest count, in digits.
pub open spec fn count_width(counts: Seq<int>) -> int {
    max_or_zero(counts.map_values(|c: int| decimal(c as nat).len() as int))
}

/// The width of the name column: the longest name in UTF-8 bytes.
pub fn name_column_width(names: &Vec<Vec<char>>) -> (w: usize)
    ensures
        w == name_width(names.deep_view()),
{
    let ghost ns = names.deep_view();
    let mut w: usize = 0;
    let mut k: usize = 0;
    while k < names.len()
        invariant
            k <= names.len(),
            ns == names.deep_view(),
            w as int == max_or_zero(ns.take(k as int).map_values(|n: Seq<char>| utf8_len(n))),
        decreases names.len() - k,
    {
        assert(names@[k as int].deep_view() =~= names@[k as int]@);
        let n = utf8_len_of(&names[k]);
        assert(ns.take(k + 1).map_values(|n: Seq<char>| utf8_len(n)).drop_last()
            =~= ns.take(k as int).map_values(|n: Seq<char>| utf8_len(n)));
        if n > w {
            w = n;
        }
        k += 1;
    }
    assert(ns.take(names.len() as int) == ns);
    w
}

/// The width of a count column: the longest count in digits.
pub fn count_column_width(counts: &Vec<usize>) -> (w: usize)
    ensures
        w == count_width(counts@.map_values(|c: usize| c as int)),
{
    let ghost cs = counts@.map_values(|c: usize| c as int);
    let mut w: usize = 0;
    let mut k: usize = 0;
    while k < counts.len()
        invariant
            k <= counts.len(),
            cs == counts@.map_values(|c: usize| c as int),
            w as int == max_or_zero(cs.take(k as int).map_values(|c: int| decimal(c as nat).len() as int)),
        decreases counts.len() - k,
    {
        let d = decimal_chars(counts[k]);
        assert(cs.take(k + 1).map_values(|c: int| decimal(c as nat).len() as int).drop_last()
            =~= cs.take(k as int).map_values(|c: int| decimal(c as nat).len() as int));
        if d.len() > w {
            w = d.len();
        }
        k += 1;
    }
    assert(cs.take(counts.len() as int) == cs);
    w
}

} // verus!
