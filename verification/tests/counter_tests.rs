use brodo_utils::minecraft::death_counter::{death_report, DeathCounterArgs};
use brodo_utils::minecraft::kill_counter::{kill_report, KillCounterArgs};
use brodo_utils::minecraft::kill_log::parse_kill;
use regex::Regex;
use std::collections::{HashMap, HashSet};

const KILL_PATTERN: &str = r"'([^']+)' killed '([^']+)'";

/// The same death report computed directly with `regex` and a `HashMap`.
fn reference_deaths(content: &str) -> String {
    let re = Regex::new(KILL_PATTERN).unwrap();
    let mut order: Vec<String> = Vec::new();
    let mut deaths: HashMap<String, usize> = HashMap::new();
    for line in content.lines() {
        if let Some(caps) = re.captures(line) {
            let victim = caps.get(2).unwrap().as_str().to_string();
            let entry = deaths.entry(victim.clone()).or_insert_with(|| {
                order.push(victim);
                0
            });
            *entry += 1;
        }
    }
    let name_width = order.iter().map(|k| k.len()).max().unwrap_or(0);
    let count_width = order.iter().map(|k| deaths[k].to_string().len()).max().unwrap_or(0);
    let mut out = String::new();
    for player in &order {
        out.push_str(&format!("{:<name_width$} died {:>count_width$}\n", player, deaths[player]));
    }
    out
}

/// The same kill report computed directly with `regex`, a `HashMap` and a `HashSet`.
fn reference_kills(content: &str) -> String {
    let re = Regex::new(KILL_PATTERN).unwrap();
    let mut order: Vec<String> = Vec::new();
    let mut stats: HashMap<String, (usize, HashSet<String>)> = HashMap::new();
    for line in content.lines() {
        if let Some(caps) = re.captures(line) {
            let killer = caps.get(1).unwrap().as_str().to_string();
            let victim = caps.get(2).unwrap().as_str().to_string();
            let entry = stats.entry(killer.clone()).or_insert_with(|| {
                order.push(killer);
                (0, HashSet::new())
            });
            entry.0 += 1;
            entry.1.insert(victim);
        }
    }
    let name_width = order.iter().map(|k| k.len()).max().unwrap_or(0);
    let total_width = order.iter().map(|k| stats[k].0.to_string().len()).max().unwrap_or(0);
    let mut out = String::new();
    for killer in &order {
        let (total, victims) = &stats[killer];
        out.push_str(&format!(
            "{:<name_width$} killed {:>total_width$} - Unique kills: {}\n",
            killer,
            total,
            victims.len()
        ));
    }
    out
}

fn parse(line: &str) -> Option<(String, String)> {
    let cs: Vec<char> = line.chars().collect();
    parse_kill(&cs).map(|(k, v)| (k.into_iter().collect(), v.into_iter().collect()))
}

fn regex_parse(line: &str) -> Option<(String, String)> {
    let re = Regex::new(KILL_PATTERN).unwrap();
    re.captures(line).map(|c| (c[1].to_string(), c[2].to_string()))
}

#[test]
fn kill_lines_are_recognised() {
    assert_eq!(parse("'Steve' killed 'Alex'"), Some(("Steve".into(), "Alex".into())));
    assert_eq!(
        parse("[10:00] 'Zombie' killed 'Steve' with a stick"),
        Some(("Zombie".into(), "Steve".into()))
    );
    assert_eq!(parse("Steve killed Alex"), None);
    assert_eq!(parse("'' killed 'Alex'"), None);
    assert_eq!(parse("'Steve' killed ''"), None);
    assert_eq!(parse("'Steve' killed 'Alex"), None);
    assert_eq!(parse("'Steve'  killed 'Alex'"), None);
    assert_eq!(parse(""), None);
}

#[test]
fn leftmost_match_wins() {
    assert_eq!(
        parse("'a' killed 'b' and 'c' killed 'd'"),
        Some(("a".into(), "b".into()))
    );
    assert_eq!(parse("'x' said 'a' killed 'b'"), regex_parse("'x' said 'a' killed 'b'"));
    assert_eq!(parse("''a' killed 'b'"), Some(("a".into(), "b".into())));
}

#[test]
fn recogniser_agrees_with_the_regex() {
    let samples = [
        "'a' killed 'b'",
        "x'a' killed 'b'y",
        "'a b' killed 'c d'",
        "'a' killed 'b' killed 'c'",
        "'a'' killed 'b'",
        "'a' killed ''b'",
        "' killed '",
        "'' killed '' killed 'x'",
        "'ü' killed 'ß'",
        "'a' killed 'b",
        "'a' killed b'",
        "a' killed 'b'",
        "'a' killed 'b'c' killed 'd'",
        "'''' killed ''''",
        "'x' killed 'y' 'z' killed 'w'",
        "' ' killed ' '",
        "'\t' killed '\u{7f}'",
    ];
    for s in samples.iter() {
        assert_eq!(parse(s), regex_parse(s), "{:?}", s);
    }
}

#[test]
fn death_report_example() {
    let content = "'Zombie' killed 'Steve'\nnothing\n'Creeper' killed 'Alex'\n'Zombie' killed 'Steve'\n'Alex' killed 'Steve'\n";
    assert_eq!(death_report(content), "Steve died 3\nAlex  died 1\n");
    assert_eq!(death_report(content), reference_deaths(content));
}

#[test]
fn kill_report_example() {
    let content = "'Zombie' killed 'Steve'\n'Creeper' killed 'Alex'\n'Zombie' killed 'Steve'\n'Zombie' killed 'Alex'\nnoise\n";
    assert_eq!(
        kill_report(content),
        "Zombie  killed 3 - Unique kills: 2\nCreeper killed 1 - Unique kills: 1\n"
    );
    assert_eq!(kill_report(content), reference_kills(content));
}

#[test]
fn empty_logs_give_empty_reports() {
    assert_eq!(death_report(""), "");
    assert_eq!(kill_report(""), "");
    assert_eq!(death_report("no kills\nat all\n"), "");
    assert_eq!(kill_report("no kills\nat all\n"), "");
}

#[test]
fn widths_count_bytes_and_pad_by_characters() {
    let content = "'a' killed 'Ünïcödé'\n'b' killed 'x'\n'a' killed 'x'\n";
    assert_eq!(death_report(content), reference_deaths(content));
    assert_eq!(kill_report(content), reference_kills(content));
}

#[test]
fn counts_with_several_digits() {
    let mut content = String::new();
    for i in 0..123 {
        content.push_str(&format!("'k{}' killed 'v{}'\n", i % 3, i % 7));
    }
    content.push_str("'lonely' killed 'v0'\r\n");
    assert_eq!(death_report(&content), reference_deaths(&content));
    assert_eq!(kill_report(&content), reference_kills(&content));
}

#[test]
fn args_carry_the_input_path() {
    let d = DeathCounterArgs { input: "deaths.log".to_string() };
    let k = KillCounterArgs { input: "kills.log".to_string() };
    assert_eq!(d.input, "deaths.log");
    assert_eq!(k.input, "kills.log");
}
