//! Kills per player in a log, with the number of distinct victims, in the
//! order the players first killed.

use vstd::prelude::*;
use crate::minecraft::kill_log::{
    count_column_width, count_width, entry_index, find_entry, lemma_entry_index, kill_event, name_column_width,
    name_width, parse_kill,
};
use crate::text::{
    chars_of, decimal, decimal_chars, pad_left, pad_right, push_char, push_padded_left,
    push_chars, push_padded_right, same_chars, split_lines, split_lines_of,
};

verus! {

/// The log file to read.
pub struct KillCounterArgs {
    pub input: String,
}

#[verifier::ext_equal]
/// Killers, their kill totals and their distinct victims (in the order of
/// their first kill), in the order each killer first killed.
pub struct KillTally {
    pub names: Seq<Seq<char>>,
    pub totals: Seq<int>,
    pub victims: Seq<Seq<Seq<char>>>,
}

/// `victims` with `victim` added unless it is there already.
pub open spec fn add_victim(victims: Seq<Seq<char>>, victim: Seq<char>) -> Seq<Seq<char>> {
    if victims.contains(victim) {
        victims
    } else {
        victims.push(victim)
    }
}

/// Counts one more kill of `victim` by `killer`.
pub open spec fn count_kill(t: KillTally, killer: Seq<char>, victim: Seq<char>) -> KillTally {
    let k = entry_index(t.names, killer, t.names.len() as int);
    if k >= 0 {
        KillTally {
            names: t.names,
            totals: t.totals.update(k, t.totals[k] + 1),
            victims: t.victims.update(k, add_victim(t.victims[k], victim)),
        }
    } else {
        KillTally {
            names: t.names.push(killer),
            totals: t.totals.push(1),
            victims: t.victims.push(seq![victim]),
        }
    }
}

/// The tally of the kill lines among `lines`.
pub open spec fn kill_tally(lines: Seq<Seq<char>>) -> KillTally
    decreases lines.len(),
{
    if lines.len() == 0 {
        KillTally { names: Seq::empty(), totals: Seq::empty(), victims: Seq::empty() }
    } else {
        let t = kill_tally(lines.drop_last());
        match kill_event(lines.last()) {
            Some((killer, victim)) => count_kill(t, killer, victim),
            None => t,
        }
    }
}

/// The report lines of the first `n` entries: the name padded to the name width,
/// ` killed `, the total right-aligned to the total width, and the number
/// of distinct victims.
pub open spec fn kill_lines(t: KillTally, name_width: int, total_width: int, n: int) -> Seq<char>
    decreases n,
{
    if n <= 0 {
        Seq::empty()
    } else {
        kill_lines(t, name_width, total_width, n - 1)
            + pad_right(t.names[n - 1], name_width)
            + " killed "@
            + pad_left(decimal(t.totals[n - 1] as nat), total_width)
            + " - Unique kills: "@
            + decimal(t.victims[n - 1].len())
            + seq!['\n']
    }
}

/// The kill report of a log.
pub open spec fn kill_report_text(content: Seq<char>) -> Seq<char> {
    let t = kill_tally(split_lines(content));
    kill_lines(t, name_width(t.names), count_width(t.totals), t.names.len() as int)
}

/// The well-formedness of a tally: one total and one victim list per
/// killer, each victim list without repeats, and no longer than the total.
pub open spec fn kill_tally_wf(t: KillTally) -> bool {
    &&& t.totals.len() == t.names.len()
    &&& t.victims.len() == t.names.len()
    &&& forall|k: int| 0 <= k < t.names.len() ==> (#[trigger] t.victims[k]).no_duplicates()
    &&& forall|k: int| 0 <= k < t.names.len() ==> 1 <= #[trigger] t.victims[k].len() <= t.totals[k]
}

/// Each killer has at least one and at most as many distinct victims as kills,
/// and no victim is listed twice.
pub proof fn lemma_unique_kills_at_most_total(lines: Seq<Seq<char>>)
    ensures
        kill_tally_wf(kill_tally(lines)),
    decreases lines.len(),
{
    if lines.len() > 0 {
        lemma_unique_kills_at_most_total(lines.drop_last());
        let t = kill_tally(lines.drop_last());
        if let Some((killer, victim)) = kill_event(lines.last()) {
            let k = entry_index(t.names, killer, t.names.len() as int);
            lemma_entry_index_range(t.names, killer, t.names.len() as int);
            let t2 = count_kill(t, killer, victim);
            assert forall|j: int| 0 <= j < t2.names.len() implies (#[trigger] t2.victims[j]).no_duplicates()
                && 1 <= t2.victims[j].len() <= t2.totals[j] by {
                if j == k || (k < 0 && j == t.names.len()) {
                } else {
                    assert(t2.victims[j] == t.victims[j]);
                }
            }
        }
    }
}

/// How many of `lines` record a kill by `name`.
pub open spec fn kills_by(lines: Seq<Seq<char>>, name: Seq<char>) -> int
    decreases lines.len(),
{
    if lines.len() == 0 {
        0
    } else {
        kills_by(lines.drop_last(), name) + match kill_event(lines.last()) {
            Some((killer, _)) => if killer == name { 1int } else { 0int },
            None => 0int,
        }
    }
}

/// Some line among `lines` records that `killer` killed `victim`.
pub open spec fn has_killed(lines: Seq<Seq<char>>, killer: Seq<char>, victim: Seq<char>) -> bool
    decreases lines.len(),
{
    if lines.len() == 0 {
        false
    } else {
        has_killed(lines.drop_last(), killer, victim) || kill_event(lines.last()) == Some((killer, victim))
    }
}

proof fn lemma_kills_nonneg(lines: Seq<Seq<char>>)
    ensures
        forall|name: Seq<char>| #[trigger] kills_by(lines, name) >= 0,
    decreases lines.len(),
{
    if lines.len() > 0 {
        lemma_kills_nonneg(lines.drop_last());
        assert forall|name: Seq<char>| #[trigger] kills_by(lines, name) >= 0 by {
            assert(kills_by(lines.drop_last(), name) >= 0);
        }
    }
}

/// The tally lists each killer once, with the number of lines that record
/// one of their kills, and with exactly the victims those lines name; it
/// lists no one who killed nobody.
pub proof fn lemma_kill_tally_counts(lines: Seq<Seq<char>>)
    ensures
        ({
            let t = kill_tally(lines);
            &&& kill_tally_wf(t)
            &&& t.names.no_duplicates()
            &&& forall|k: int| 0 <= k < t.names.len() ==> #[trigger] t.totals[k] == kills_by(lines, t.names[k])
            &&& forall|k: int, v: Seq<char>| 0 <= k < t.names.len() ==>
                (#[trigger] t.victims[k].contains(v) <==> has_killed(lines, t.names[k], v))
            &&& forall|name: Seq<char>| kills_by(lines, name) > 0 ==> #[trigger] t.names.contains(name)
        }),
    decreases lines.len(),
{
    lemma_unique_kills_at_most_total(lines);
    if lines.len() > 0 {
        let prev = lines.drop_last();
        lemma_kill_tally_counts(prev);
        lemma_kills_nonneg(prev);
        let t = kill_tally(prev);
        let t2 = kill_tally(lines);
        if let Some((killer, victim)) = kill_event(lines.last()) {
            lemma_entry_index(t.names, killer, t.names.len() as int);
            let k = entry_index(t.names, killer, t.names.len() as int);
            if k < 0 {
                assert forall|j: int| 0 <= j < t.names.len() implies t.names[j] != killer by {}
                assert(t2.names.no_duplicates());
                assert(kills_by(prev, killer) == 0) by {
                    if kills_by(prev, killer) > 0 {
                        assert(t.names.contains(killer));
                    }
                }
                assert forall|name: Seq<char>| kills_by(lines, name) > 0 implies #[trigger] t2.names.contains(name) by {
                    if name != killer {
                        assert(t.names.contains(name));
                        let j = choose|j: int| 0 <= j < t.names.len() && t.names[j] == name;
                        assert(t2.names[j] == name);
                    } else {
                        assert(t2.names[t.names.len() as int] == name);
                    }
                }
                assert forall|j: int, v: Seq<char>| 0 <= j < t2.names.len() implies
                    (#[trigger] t2.victims[j].contains(v) <==> has_killed(lines, t2.names[j], v)) by {
                    if j < t.names.len() {
                        assert(t2.victims[j] == t.victims[j]);
                    } else {
                        assert(t2.victims[j] == seq![victim]);
                        if has_killed(prev, killer, v) {
                            assert(kills_by(prev, killer) > 0) by {
                                lemma_has_killed_counts(prev, killer, v);
                            }
                        }
                        if v == victim {
                            assert(t2.victims[j][0] == v);
                        }
                    }
                }
            } else {
                assert forall|name: Seq<char>| kills_by(lines, name) > 0 implies #[trigger] t2.names.contains(name) by {
                    if name != killer {
                        assert(t.names.contains(name));
                    } else {
                        assert(t2.names[k] == name);
                    }
                }
                assert forall|j: int, v: Seq<char>| 0 <= j < t2.names.len() implies
                    (#[trigger] t2.victims[j].contains(v) <==> has_killed(lines, t2.names[j], v)) by {
                    assert(t2.names == t.names);
                    if j != k {
                        assert(t2.victims[j] == t.victims[j]);
                        assert(t.names[j] != t.names[k]);
                        assert(t.victims[j].contains(v) <==> has_killed(prev, t.names[j], v));
                    } else {
                        assert(t.names[k] == killer);
                        assert(t.victims[k].contains(v) <==> has_killed(prev, t.names[k], v));
                        assert(has_killed(lines, killer, v) <==> (has_killed(prev, killer, v) || v == victim));
                        if t.victims[k].contains(victim) {
                            assert(t2.victims[k] == t.victims[k]);
                        } else {
                            let vs = t.victims[k];
                            assert(t2.victims[k] == vs.push(victim));
                            assert(vs.push(victim)[vs.len() as int] == victim);
                            if vs.contains(v) {
                                let i = choose|i: int| 0 <= i < vs.len() && vs[i] == v;
                                assert(vs.push(victim)[i] == v);
                            }
                            if vs.push(victim).contains(v) && v != victim {
                                let i = choose|i: int| 0 <= i < vs.push(victim).len() && vs.push(victim)[i] == v;
                                assert(vs[i] == v);
                            }
                        }
                    }
                }
            }
        } else {
            assert forall|j: int, v: Seq<char>| 0 <= j < t2.names.len() implies
                (#[trigger] t2.victims[j].contains(v) <==> has_killed(lines, t2.names[j], v)) by {
                assert(t.victims[j].contains(v) <==> has_killed(prev, t.names[j], v));
            }
        }
    }
}

/// Kills are counted line by line: a log's count is the sum of the counts
/// of its parts, one line counts one kill by the killer it names and nothing
/// else, and a killer has killed a victim in a log when some part records it.
pub proof fn lemma_kills_of_lines(
    a: Seq<Seq<char>>,
    b: Seq<Seq<char>>,
    killer: Seq<char>,
    victim: Seq<char>,
    line: Seq<char>,
)
    ensures
        kills_by(a + b, killer) == kills_by(a, killer) + kills_by(b, killer),
        kills_by(seq![line], killer) == (if kill_event(line) matches Some((k, _)) && k == killer { 1int } else { 0int }),
        has_killed(a + b, killer, victim) == (has_killed(a, killer, victim) || has_killed(b, killer, victim)),
        has_killed(seq![line], killer, victim) == (kill_event(line) == Some((killer, victim))),
    decreases b.len(),
{
    assert(seq![line].drop_last() =~= Seq::<Seq<char>>::empty());
    assert(seq![line].last() == line);
    assert(kills_by(Seq::<Seq<char>>::empty(), killer) == 0);
    assert(!has_killed(Seq::<Seq<char>>::empty(), killer, victim));
    if b.len() == 0 {
        assert(a + b =~= a);
    } else {
        lemma_kills_of_lines(a, b.drop_last(), killer, victim, line);
        assert((a + b).drop_last() =~= a + b.drop_last());
        assert((a + b).last() == b.last());
    }
}

/// Among the first lines of `lines` there is a point by which `a` has
/// killed and `b` has not yet.
pub open spec fn killed_before(lines: Seq<Seq<char>>, a: Seq<char>, b: Seq<char>) -> bool {
    exists|n: int| 0 <= n <= lines.len() && #[trigger] kills_by(lines.take(n), a) > 0
        && kills_by(lines.take(n), b) == 0
}

/// The distinct players whom `killer` killed in `lines`.
pub open spec fn victims_of(lines: Seq<Seq<char>>, killer: Seq<char>) -> Set<Seq<char>> {
    Set::new(|v: Seq<char>| has_killed(lines, killer, v))
}

/// The tally lists only players who killed, in the order of their first kills.
pub proof fn lemma_kill_tally_order(lines: Seq<Seq<char>>)
    ensures
        forall|k: int| 0 <= k < kill_tally(lines).names.len() ==>
            #[trigger] kills_by(lines, kill_tally(lines).names[k]) > 0,
        forall|k1: int, k2: int| 0 <= k1 < k2 < kill_tally(lines).names.len() ==>
            killed_before(lines, #[trigger] kill_tally(lines).names[k1], #[trigger] kill_tally(lines).names[k2]),
    decreases lines.len(),
{
    lemma_kill_tally_counts(lines);
    if lines.len() > 0 {
        let prev = lines.drop_last();
        lemma_kill_tally_order(prev);
        lemma_kill_tally_counts(prev);
        lemma_kills_nonneg(prev);
        let t = kill_tally(prev);
        let t2 = kill_tally(lines);
        assert forall|n: int| 0 <= n <= prev.len() implies #[trigger] lines.take(n) == prev.take(n) by {
            assert(lines.take(n) =~= prev.take(n));
        }
        assert(lines.take(prev.len() as int) =~= prev);
        assert forall|k1: int, k2: int| 0 <= k1 < k2 < t.names.len() implies
            killed_before(lines, t.names[k1], t.names[k2]) by {
            assert(killed_before(prev, t.names[k1], t.names[k2]));
            let n = choose|n: int| 0 <= n <= prev.len() && #[trigger] kills_by(prev.take(n), t.names[k1]) > 0
                && kills_by(prev.take(n), t.names[k2]) == 0;
            assert(lines.take(n) == prev.take(n));
            assert(kills_by(lines.take(n), t.names[k1]) > 0);
        }
        assert forall|k: int| 0 <= k < t.names.len() implies kills_by(lines, #[trigger] t.names[k]) > 0 by {
            assert(kills_by(prev, t.names[k]) > 0);
        }
        if let Some((killer, victim)) = kill_event(lines.last()) {
            lemma_entry_index(t.names, killer, t.names.len() as int);
            let k = entry_index(t.names, killer, t.names.len() as int);
            if k < 0 {
                assert(t2.names == t.names.push(killer));
                assert(kills_by(prev, killer) == 0) by {
                    if kills_by(prev, killer) > 0 {
                        assert(t.names.contains(killer));
                        let j = choose|j: int| 0 <= j < t.names.len() && t.names[j] == killer;
                    }
                }
                assert forall|k1: int, k2: int| 0 <= k1 < k2 < t2.names.len() implies
                    killed_before(lines, #[trigger] t2.names[k1], #[trigger] t2.names[k2]) by {
                    if k2 < t.names.len() {
                        assert(t2.names[k1] == t.names[k1]);
                        assert(t2.names[k2] == t.names[k2]);
                    } else {
                        let n = prev.len() as int;
                        assert(t2.names[k2] == killer);
                        assert(t2.names[k1] == t.names[k1]);
                        assert(kills_by(lines.take(n), t.names[k1]) > 0);
                    }
                }
                assert forall|j: int| 0 <= j < t2.names.len() implies #[trigger] kills_by(lines, t2.names[j]) > 0 by {
                    if j < t.names.len() {
                        assert(t2.names[j] == t.names[j]);
                    }
                }
            }
        }
    }
}

/// The kill report counts every line of the log: it is the table of a
/// tally that lists each player who killed, once, in the order of their
/// first kills, with the number of lines that record one of their kills and
/// the number of distinct players those lines say they killed.
pub open spec fn kill_report_of(content: Seq<char>, t: KillTally) -> bool {
    let ls = split_lines(content);
    &&& kill_report_text(content) == kill_lines(t, name_width(t.names), count_width(t.totals), t.names.len() as int)
    &&& t.totals.len() == t.names.len()
    &&& t.victims.len() == t.names.len()
    &&& t.names.no_duplicates()
    &&& forall|k: int| 0 <= k < t.names.len() ==> #[trigger] t.totals[k] == kills_by(ls, t.names[k]) && t.totals[k] > 0
    &&& forall|k: int| #![trigger t.victims[k]] 0 <= k < t.names.len() ==>
        victims_of(ls, t.names[k]).finite() && t.victims[k].len() == victims_of(ls, t.names[k]).len()
    &&& forall|p: Seq<char>| #[trigger] kills_by(ls, p) > 0 ==> t.names.contains(p)
    &&& forall|k1: int, k2: int| 0 <= k1 < k2 < t.names.len() ==>
        killed_before(ls, #[trigger] t.names[k1], #[trigger] t.names[k2])
}

/// Every line of the log counts in the kill report, a repeated line as
/// often as it stands: the report is the table of each player's kills and
/// distinct victims over all the lines `str::lines` yields.
pub proof fn lemma_kill_report_counts_every_line(content: Seq<char>)
    ensures
        exists|t: KillTally| #[trigger] kill_report_of(content, t),
{
    let ls = split_lines(content);
    lemma_kill_tally_counts(ls);
    lemma_kill_tally_order(ls);
    let t = kill_tally(ls);
    assert forall|k: int| #![trigger t.victims[k]] 0 <= k < t.names.len() implies
        victims_of(ls, t.names[k]).finite() && t.victims[k].len() == victims_of(ls, t.names[k]).len() by {
        let vs = t.victims[k];
        assert(vs.to_set() =~= victims_of(ls, t.names[k]));
        vstd::seq_lib::seq_to_set_is_finite(vs);
        vs.unique_seq_to_set();
        assert(victims_of(ls, t.names[k]).finite());
    }
    assert forall|k: int| 0 <= k < t.names.len() implies #[trigger] victims_of(ls, t.names[k]).finite() by {
        assert(t.victims[k].len() >= 0);
    }
    assert forall|k: int| 0 <= k < t.names.len() implies
        #[trigger] t.totals[k] == kills_by(ls, t.names[k]) && t.totals[k] > 0 by {
        assert(1 <= t.victims[k].len() <= t.totals[k]);
    }
    assert(kill_report_of(content, t));
}

proof fn lemma_has_killed_counts(lines: Seq<Seq<char>>, killer: Seq<char>, victim: Seq<char>)
    requires
        has_killed(lines, killer, victim),
    ensures
        kills_by(lines, killer) > 0,
    decreases lines.len(),
{
    lemma_kills_nonneg(lines.drop_last());
    assert(kills_by(lines.drop_last(), killer) >= 0);
    if has_killed(lines.drop_last(), killer, victim) {
        lemma_has_killed_counts(lines.drop_last(), killer, victim);
    }
}

proof fn lemma_entry_index_range(names: Seq<Seq<char>>, name: Seq<char>, n: int)
    requires
        n >= 0,
    ensures
        -1 <= entry_index(names, name, n) < n,
    decreases n,
{
    if n > 0 {
        lemma_entry_index_range(names, name, n - 1);
    }
}

fn contains_chars(vs: &Vec<Vec<char>>, v: &Vec<char>) -> (r: bool)
    ensures
        r == vs.deep_view().contains(v@),
{
    let mut k: usize = 0;
    while k < vs.len()
        invariant
            k <= vs.len(),
            forall|j: int| 0 <= j < k ==> vs.deep_view()[j] != v@,
        decreases vs.len() - k,
    {
        assert(vs@[k as int].deep_view() =~= vs@[k as int]@);
        if same_chars(&vs[k], v) {
            assert(vs.deep_view()[k as int] == v@);
            return true;
        }
        k += 1;
    }
    false
}

/// The running tally of a log.
pub struct KillCounts {
    pub names: Vec<Vec<char>>,
    pub totals: Vec<usize>,
    pub victims: Vec<Vec<Vec<char>>>,
}

impl KillCounts {
    /// The tally these counts stand for.
    pub open spec fn tally(&self) -> KillTally {
        KillTally {
            names: self.names.deep_view(),
            totals: self.totals@.map_values(|c: usize| c as int),
            victims: self.victims@.map_values(|vs: Vec<Vec<char>>| vs.deep_view()),
        }
    }
}

/// Kills per player: the killers of the kill lines of the log, with their
/// totals and distinct victims.
pub fn tally_kills(lines: &Vec<Vec<char>>) -> (r: KillCounts)
    ensures
        r.tally() == kill_tally(lines.deep_view()),
        r.totals@.len() == r.names@.len(),
        r.victims@.len() == r.names@.len(),
{
    let ghost ls = lines.deep_view();
    let mut c = KillCounts { names: Vec::new(), totals: Vec::new(), victims: Vec::new() };
    let mut i: usize = 0;
    assert(c.tally() =~= kill_tally(ls.take(0)));
    while i < lines.len()
        invariant
            i <= lines.len(),
            ls == lines.deep_view(),
            c.tally() == kill_tally(ls.take(i as int)),
            c.totals@.len() == c.names@.len(),
            c.victims@.len() == c.names@.len(),
            forall|k: int| 0 <= k < c.totals@.len() ==> #[trigger] c.totals@[k] <= i,
        decreases lines.len() - i,
    {
        assert(ls.take(i + 1).drop_last() == ls.take(i as int));
        assert(lines@[i as int].deep_view() =~= lines@[i as int]@);
        assert(ls.take(i + 1).last() == lines@[i as int]@);
        let ghost before = c.tally();
        if let Some((killer, victim)) = parse_kill(&lines[i]) {
            assert(killer.deep_view() =~= killer@);
            assert(victim.deep_view() =~= victim@);
            match find_entry(&c.names, &killer) {
                Some(k) => {
                    let t = c.totals[k] + 1;
                    c.totals.set(k, t);
                    let ghost old_victims = c.victims@;
                    let mut vs = c.victims.remove(k);
                    let ghost old_vs = vs.deep_view();
                    assert(old_vs == before.victims[k as int]);
                    if !contains_chars(&vs, &victim) {
                        vs.push(victim);
                        assert(vs.deep_view() =~= old_vs.push(victim@));
                    }
                    assert(vs.deep_view() == add_victim(before.victims[k as int], victim@));
                    c.victims.insert(k, vs);
                    assert(c.victims@ =~= old_victims.update(k as int, c.victims@[k as int]));
                },
                None => {
                    c.names.push(killer);
                    c.totals.push(1);
                    let mut vs: Vec<Vec<char>> = Vec::new();
                    vs.push(victim);
                    assert(vs.deep_view() =~= seq![victim@]);
                    c.victims.push(vs);
                },
            }
            let ghost after = count_kill(before, (kill_event(ls[i as int])->0).0, (kill_event(ls[i as int])->0).1);
            assert(c.tally().names =~= after.names);
            assert(c.tally().totals =~= after.totals);
            assert(c.tally().victims =~= after.victims);
        }
        i += 1;
    }
    assert(ls.take(lines.len() as int) == ls);
    c
}

/// The kill report of a log: for each player who killed, in the order of
/// their first kill, a line `<name> killed <total> - Unique kills: <n>`, with
/// the names padded to the longest name and the totals aligned right.
pub fn kill_report(content: &str) -> (r: String)
    ensures
        r@ == kill_report_text(content@),
{
    let chars = chars_of(content);
    let lines = split_lines_of(&chars);
    let c = tally_kills(&lines);
    let ghost t = c.tally();
    let nw = name_column_width(&c.names);
    let tw = count_column_width(&c.totals);
    let mut r = String::new();
    let mut k: usize = 0;
    while k < c.names.len()
        invariant
            k <= c.names.len(),
            c.totals@.len() == c.names@.len(),
            c.victims@.len() == c.names@.len(),
            t == c.tally(),
            r@ == kill_lines(t, nw as int, tw as int, k as int),
        decreases c.names.len() - k,
    {
        assert(c.names@[k as int].deep_view() =~= c.names@[k as int]@);
        push_padded_right(&mut r, &c.names[k], nw);
        r.append(" killed ");
        let d = decimal_chars(c.totals[k]);
        push_padded_left(&mut r, &d, tw);
        r.append(" - Unique kills: ");
        let u = decimal_chars(c.victims[k].len());
        push_chars(&mut r, &u);
        push_char(&mut r, '\n');
        assert(t.victims[k as int].len() == c.victims@[k as int]@.len());
        k += 1;
    }
    r
}

} // verus!
