//! Deaths per player in a log, in the order the players first died.

use vstd::prelude::*;
use crate::minecraft::kill_log::{
    count_column_width, count_width, entry_index, lemma_entry_index, find_entry, kill_event, name_column_width,
    name_width, parse_kill,
};
use crate::text::{
    chars_of, decimal, decimal_chars, pad_left, pad_right, push_char, push_padded_left,
    push_padded_right, split_lines, split_lines_of,
};

verus! {

/// The log file to read.
pub struct DeathCounterArgs {
    pub input: String,
}

/// Players and their death counts, in the order each player first died.
pub struct DeathTally {
    pub names: Seq<Seq<char>>,
    pub counts: Seq<int>,
}

/// Counts one more death of `victim`.
pub open spec fn count_death(t: DeathTally, victim: Seq<char>) -> DeathTally {
    let k = entry_index(t.names, victim, t.names.len() as int);
    if k >= 0 {
        DeathTally { names: t.names, counts: t.counts.update(k, t.counts[k] + 1) }
    } else {
        DeathTally { names: t.names.push(victim), counts: t.counts.push(1) }
    }
}

/// The tally of the victims of the kill lines among `lines`.
pub open spec fn death_tally(lines: Seq<Seq<char>>) -> DeathTally
    decreases lines.len(),
{
    if lines.len() == 0 {
        DeathTally { names: Seq::empty(), counts: Seq::empty() }
    } else {
        let t = death_tally(lines.drop_last());
        match kill_event(lines.last()) {
            Some((_, victim)) => count_death(t, victim),
            None => t,
        }
    }
}

/// How many of `lines` record a kill of `name`.
pub open spec fn deaths_of(lines: Seq<Seq<char>>, name: Seq<char>) -> int
    decreases lines.len(),
{
    if lines.len() == 0 {
        0
    } else {
        deaths_of(lines.drop_last(), name) + match kill_event(lines.last()) {
            Some((_, victim)) => if victim == name { 1int } else { 0int },
            None => 0int,
        }
    }
}

/// The tally lists each victim once, with the number of lines that record
/// their death, and lists no one else.
pub proof fn lemma_death_tally_counts(lines: Seq<Seq<char>>)
    ensures
        ({
            let t = death_tally(lines);
            &&& t.counts.len() == t.names.len()
            &&& t.names.no_duplicates()
            &&& forall|k: int| 0 <= k < t.names.len() ==> #[trigger] t.counts[k] == deaths_of(lines, t.names[k])
            &&& forall|name: Seq<char>| deaths_of(lines, name) > 0 ==> #[trigger] t.names.contains(name)
        }),
    decreases lines.len(),
{
    if lines.len() > 0 {
        let prev = lines.drop_last();
        lemma_death_tally_counts(prev);
        let t = death_tally(prev);
        lemma_deaths_nonneg(prev);
        if let Some((_, victim)) = kill_event(lines.last()) {
            lemma_entry_index(t.names, victim, t.names.len() as int);
            let k = entry_index(t.names, victim, t.names.len() as int);
            let t2 = count_death(t, victim);
            if k < 0 {
                assert forall|j: int| 0 <= j < t.names.len() implies t.names[j] != victim by {}
                assert(t2.names.no_duplicates());
                assert forall|name: Seq<char>| deaths_of(lines, name) > 0 implies #[trigger] t2.names.contains(name) by {
                    if name != victim {
                        assert(t.names.contains(name));
                        let j = choose|j: int| 0 <= j < t.names.len() && t.names[j] == name;
                        assert(t2.names[j] == name);
                    } else {
                        assert(t2.names[t.names.len() as int] == name);
                    }
                }
                assert(deaths_of(prev, victim) == 0) by {
                    if deaths_of(prev, victim) > 0 {
                        assert(t.names.contains(victim));
                    }
                }
            } else {
                assert forall|name: Seq<char>| deaths_of(lines, name) > 0 implies #[trigger] t2.names.contains(name) by {
                    if name != victim {
                        assert(t.names.contains(name));
                    } else {
                        assert(t2.names[k] == name);
                    }
                }
            }
        }
    }
}

proof fn lemma_deaths_nonneg(lines: Seq<Seq<char>>)
    ensures
        forall|name: Seq<char>| #[trigger] deaths_of(lines, name) >= 0,
    decreases lines.len(),
{
    if lines.len() > 0 {
        lemma_deaths_nonneg(lines.drop_last());
        assert forall|name: Seq<char>| #[trigger] deaths_of(lines, name) >= 0 by {
            assert(deaths_of(lines.drop_last(), name) >= 0);
        }
    }
}

/// Deaths are counted line by line: a log's count is the sum of the counts
/// of its parts, and one line counts one death of the victim it names, and
/// nothing else.
pub proof fn lemma_deaths_of_lines(a: Seq<Seq<char>>, b: Seq<Seq<char>>, name: Seq<char>, line: Seq<char>)
    ensures
        deaths_of(a + b, name) == deaths_of(a, name) + deaths_of(b, name),
        deaths_of(seq![line], name) == (if kill_event(line) matches Some((_, v)) && v == name { 1int } else { 0int }),
    decreases b.len(),
{
    assert(seq![line].drop_last() =~= Seq::<Seq<char>>::empty());
    assert(seq![line].last() == line);
    assert(deaths_of(Seq::<Seq<char>>::empty(), name) == 0);
    if b.len() == 0 {
        assert(a + b =~= a);
    } else {
        lemma_deaths_of_lines(a, b.drop_last(), name, line);
        assert((a + b).drop_last() =~= a + b.drop_last());
        assert((a + b).last() == b.last());
    }
}

/// Among the first lines of `lines` there is a point by which `a` has died
/// and `b` has not yet.
pub open spec fn died_before(lines: Seq<Seq<char>>, a: Seq<char>, b: Seq<char>) -> bool {
    exists|n: int| 0 <= n <= lines.len() && #[trigger] deaths_of(lines.take(n), a) > 0
        && deaths_of(lines.take(n), b) == 0
}

/// The tally lists only players who died, in the order of their first deaths.
pub proof fn lemma_death_tally_order(lines: Seq<Seq<char>>)
    ensures
        forall|k: int| 0 <= k < death_tally(lines).names.len() ==>
            #[trigger] deaths_of(lines, death_tally(lines).names[k]) > 0,
        forall|k1: int, k2: int| 0 <= k1 < k2 < death_tally(lines).names.len() ==>
            died_before(lines, #[trigger] death_tally(lines).names[k1], #[trigger] death_tally(lines).names[k2]),
    decreases lines.len(),
{
    lemma_death_tally_counts(lines);
    if lines.len() > 0 {
        let prev = lines.drop_last();
        lemma_death_tally_order(prev);
        lemma_death_tally_counts(prev);
        lemma_deaths_nonneg(prev);
        let t = death_tally(prev);
        let t2 = death_tally(lines);
        assert forall|n: int| 0 <= n <= prev.len() implies #[trigger] lines.take(n) == prev.take(n) by {
            assert(lines.take(n) =~= prev.take(n));
        }
        assert(lines.take(prev.len() as int) =~= prev);
        assert forall|k1: int, k2: int| 0 <= k1 < k2 < t.names.len() implies
            died_before(lines, t.names[k1], t.names[k2]) by {
            assert(died_before(prev, t.names[k1], t.names[k2]));
            let n = choose|n: int| 0 <= n <= prev.len() && #[trigger] deaths_of(prev.take(n), t.names[k1]) > 0
                && deaths_of(prev.take(n), t.names[k2]) == 0;
            assert(lines.take(n) == prev.take(n));
            assert(deaths_of(lines.take(n), t.names[k1]) > 0);
        }
        assert forall|k: int| 0 <= k < t.names.len() implies deaths_of(lines, #[trigger] t.names[k]) > 0 by {
            assert(deaths_of(prev, t.names[k]) > 0);
        }
        if let Some((_, victim)) = kill_event(lines.last()) {
            lemma_entry_index(t.names, victim, t.names.len() as int);
            let k = entry_index(t.names, victim, t.names.len() as int);
            if k < 0 {
                assert(t2.names == t.names.push(victim));
                assert(deaths_of(prev, victim) == 0) by {
                    if deaths_of(prev, victim) > 0 {
                        assert(t.names.contains(victim));
                        let j = choose|j: int| 0 <= j < t.names.len() && t.names[j] == victim;
                    }
                }
                assert forall|k1: int, k2: int| 0 <= k1 < k2 < t2.names.len() implies
                    died_before(lines, #[trigger] t2.names[k1], #[trigger] t2.names[k2]) by {
                    if k2 < t.names.len() {
                        assert(t2.names[k1] == t.names[k1]);
                        assert(t2.names[k2] == t.names[k2]);
                    } else {
                        let n = prev.len() as int;
                        assert(t2.names[k2] == victim);
                        assert(t2.names[k1] == t.names[k1]);
                        assert(deaths_of(lines.take(n), t.names[k1]) > 0);
                    }
                }
                assert forall|j: int| 0 <= j < t2.names.len() implies #[trigger] deaths_of(lines, t2.names[j]) > 0 by {
                    if j < t.names.len() {
                        assert(t2.names[j] == t.names[j]);
                    }
                }
            }
        }
    }
}

/// The death report counts every line of the log: it is the table of a
/// tally that lists each player who died, once, in the order of their first
/// deaths, with the number of lines of the log that record their death.
pub open spec fn death_report_of(content: Seq<char>, t: DeathTally) -> bool {
    let ls = split_lines(content);
    &&& death_report_text(content) == death_lines(t, name_width(t.names), count_width(t.counts), t.names.len() as int)
    &&& t.counts.len() == t.names.len()
    &&& t.names.no_duplicates()
    &&& forall|k: int| 0 <= k < t.names.len() ==> #[trigger] t.counts[k] == deaths_of(ls, t.names[k]) && t.counts[k] > 0
    &&& forall|p: Seq<char>| #[trigger] deaths_of(ls, p) > 0 ==> t.names.contains(p)
    &&& forall|k1: int, k2: int| 0 <= k1 < k2 < t.names.len() ==>
        died_before(ls, #[trigger] t.names[k1], #[trigger] t.names[k2])
}

/// Every line of the log counts in the death report: the report is the
/// table of each player's deaths over all the lines `str::lines` yields,
/// the last one included whether or not a newline ends it.
pub proof fn lemma_death_report_counts_every_line(content: Seq<char>)
    ensures
        exists|t: DeathTally| #[trigger] death_report_of(content, t),
{
    let ls = split_lines(content);
    lemma_death_tally_counts(ls);
    lemma_death_tally_order(ls);
    let t = death_tally(ls);
    assert(death_report_of(content, t));
}

/// The report lines of the first `n` entries: the name padded to the name width,
/// ` died `, and the count right-aligned to the count width.
pub open spec fn death_lines(t: DeathTally, name_width: int, count_width: int, n: int) -> Seq<char>
    decreases n,
{
    if n <= 0 {
        Seq::empty()
    } else {
        death_lines(t, name_width, count_width, n - 1)
            + pad_right(t.names[n - 1], name_width)
            + " died "@
            + pad_left(decimal(t.counts[n - 1] as nat), count_width)
            + seq!['\n']
    }
}

/// The death report of a log.
pub open spec fn death_report_text(content: Seq<char>) -> Seq<char> {
    let t = death_tally(split_lines(content));
    death_lines(t, name_width(t.names), count_width(t.counts), t.names.len() as int)
}

/// Deaths per player: the victims of the kill lines of the log, with their counts.
pub fn tally_deaths(lines: &Vec<Vec<char>>) -> (r: (Vec<Vec<char>>, Vec<usize>))
    ensures
        r.0.deep_view() == death_tally(lines.deep_view()).names,
        r.1@.len() == r.0@.len(),
        death_tally(lines.deep_view()).counts.len() == r.1@.len(),
        forall|k: int| 0 <= k < r.1@.len() ==> r.1@[k] as int == #[trigger] death_tally(lines.deep_view()).counts[k],
{
    let ghost ls = lines.deep_view();
    let mut names: Vec<Vec<char>> = Vec::new();
    let mut counts: Vec<usize> = Vec::new();
    let mut i: usize = 0;
    while i < lines.len()
        invariant
            i <= lines.len(),
            ls == lines.deep_view(),
            names.deep_view() == death_tally(ls.take(i as int)).names,
            counts@.len() == names@.len(),
            death_tally(ls.take(i as int)).counts.len() == names@.len(),
            forall|k: int| 0 <= k < counts@.len() ==> counts@[k] as int == #[trigger] death_tally(ls.take(i as int)).counts[k],
            forall|k: int| 0 <= k < counts@.len() ==> #[trigger] counts@[k] <= i,
        decreases lines.len() - i,
    {
        assert(ls.take(i + 1).drop_last() == ls.take(i as int));
        assert(lines@[i as int].deep_view() =~= lines@[i as int]@);
        assert(ls.take(i + 1).last() == lines@[i as int]@);
        let ghost before = death_tally(ls.take(i as int));
        if let Some((_killer, victim)) = parse_kill(&lines[i]) {
            match find_entry(&names, &victim) {
                Some(k) => {
                    counts.set(k, counts[k] + 1);
                },
                None => {
                    let ghost old_names = names.deep_view();
                    assert(victim.deep_view() =~= victim@);
                    names.push(victim);
                    counts.push(1);
                    assert(names.deep_view() =~= old_names.push((kill_event(ls[i as int])->0).1));
                },
            }
        }
        i += 1;
        assert(forall|k: int| 0 <= k < counts@.len() ==> counts@[k] as int == #[trigger] death_tally(ls.take(i as int)).counts[k]);
    }
    assert(ls.take(lines.len() as int) == ls);
    (names, counts)
}

/// The death report of a log: for each player who died, in the order of
/// their first death, a line `<name> died <count>` with the names padded to
/// the longest name and the counts aligned right.
pub fn death_report(content: &str) -> (r: String)
    ensures
        r@ == death_report_text(content@),
{
    let chars = chars_of(content);
    let lines = split_lines_of(&chars);
    let (names, counts) = tally_deaths(&lines);
    let ghost t = death_tally(lines.deep_view());
    assert(t.counts =~= counts@.map_values(|c: usize| c as int));
    let ghost ns = names.deep_view();
    let nw = name_column_width(&names);
    let cw = count_column_width(&counts);
    let mut r = String::new();
    let mut k: usize = 0;
    while k < names.len()
        invariant
            k <= names.len(),
            counts@.len() == names@.len(),
            ns == names.deep_view(),
            t.names == ns,
            t.counts =~= counts@.map_values(|c: usize| c as int),
            r@ == death_lines(t, nw as int, cw as int, k as int),
        decreases names.len() - k,
    {
        assert(names@[k as int].deep_view() =~= names@[k as int]@);
        push_padded_right(&mut r, &names[k], nw);
        r.append(" died ");
        let d = decimal_chars(counts[k]);
        push_padded_left(&mut r, &d, cw);
        push_char(&mut r, '\n');
        k += 1;
    }
    r
}

} // verus!
