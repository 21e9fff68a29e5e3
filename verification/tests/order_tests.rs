use brodo_utils::minecraft::order::{
    line_timestamp, log_time_key, order_summary, sort_log, LogTime, OrderArgs, SortedLog,
};
use brodo_utils::minecraft::{input_path, run, MinecraftArgs, MinecraftCommands};
use brodo_utils::sort::stable_order;
use chrono::NaiveDateTime;
use regex::Regex;

/// The same ordering computed directly with `regex`, `chrono` and a std sort.
fn reference(content: &str) -> (String, usize, usize) {
    let re = Regex::new(r"^\[(\d{2}/\d{2}/\d{4} - \d{2}:\d{2}:\d{2})\]").unwrap();
    let mut parsed: Vec<(NaiveDateTime, &str)> = Vec::new();
    let mut unparsed: Vec<&str> = Vec::new();
    for line in content.lines() {
        if let Some(caps) = re.captures(line) {
            let ts_str = caps.get(1).unwrap().as_str();
            match NaiveDateTime::parse_from_str(ts_str, "%d/%m/%Y - %H:%M:%S") {
                Ok(ts) => parsed.push((ts, line)),
                Err(_) => unparsed.push(line),
            }
        } else {
            unparsed.push(line);
        }
    }
    parsed.sort_by_key(|(ts, _)| *ts);
    let mut result = String::new();
    for (_, line) in &parsed {
        result.push_str(line);
        result.push('\n');
    }
    if !unparsed.is_empty() {
        result.push('\n');
        result.push_str("# Lines without a recognized timestamp:\n");
        for line in &unparsed {
            result.push_str(line);
            result.push('\n');
        }
    }
    (result, parsed.len(), unparsed.len())
}

fn check(content: &str) -> SortedLog {
    let log = sort_log(content);
    let (text, sorted, unparsed) = reference(content);
    assert_eq!(log.text, text, "input: {:?}", content);
    assert_eq!(log.sorted, sorted);
    assert_eq!(log.unparsed, unparsed);
    log
}

#[test]
fn sorts_by_timestamp() {
    let content = "[02/01/2024 - 10:00:00] b\n[01/01/2024 - 12:00:00] a\n[01/01/2024 - 09:30:15] first\n";
    let log = check(content);
    assert_eq!(
        log.text,
        "[01/01/2024 - 09:30:15] first\n[01/01/2024 - 12:00:00] a\n[02/01/2024 - 10:00:00] b\n"
    );
    assert_eq!(log.sorted, 3);
    assert_eq!(log.unparsed, 0);
}

#[test]
fn equal_timestamps_keep_their_order() {
    let content = "[05/05/2020 - 05:05:05] one\n[01/01/2020 - 00:00:00] zero\n[05/05/2020 - 05:05:05] two\n[05/05/2020 - 05:05:05] three\n";
    let log = check(content);
    assert_eq!(
        log.text,
        "[01/01/2020 - 00:00:00] zero\n[05/05/2020 - 05:05:05] one\n[05/05/2020 - 05:05:05] two\n[05/05/2020 - 05:05:05] three\n"
    );
}

#[test]
fn lines_without_timestamps_go_last() {
    let content = "no time here\n[03/03/2023 - 03:03:03] c\nalso none\n[01/01/2023 - 01:01:01] a\n";
    let log = check(content);
    assert_eq!(
        log.text,
        "[01/01/2023 - 01:01:01] a\n[03/03/2023 - 03:03:03] c\n\n# Lines without a recognized timestamp:\nno time here\nalso none\n"
    );
    assert_eq!(log.sorted, 2);
    assert_eq!(log.unparsed, 2);
}

#[test]
fn invalid_dates_and_times_are_untimed() {
    check("[31/02/2024 - 10:00:00] no such day\n[29/02/2024 - 10:00:00] leap day\n[29/02/2023 - 10:00:00] not leap\n");
    check("[01/13/2024 - 10:00:00] month\n[00/01/2024 - 10:00:00] day zero\n[01/01/2024 - 24:00:00] hour\n[01/01/2024 - 23:60:00] minute\n[01/01/2024 - 23:59:61] second\n");
    check("[29/02/1900 - 00:00:00] century\n[29/02/2000 - 00:00:00] four hundred\n[01/01/0000 - 00:00:00] year zero\n");
    let log = check("[01/01/2024 - 10:00:00] ok\n[31/04/2024 - 10:00:00] april\n");
    assert_eq!(log.unparsed, 1);
}

#[test]
fn leap_seconds_sort_between_seconds() {
    let content = "[01/01/2024 - 10:01:00] next minute\n[01/01/2024 - 10:00:60] leap\n[01/01/2024 - 10:00:59] before\n";
    let log = check(content);
    assert_eq!(
        log.text,
        "[01/01/2024 - 10:00:59] before\n[01/01/2024 - 10:00:60] leap\n[01/01/2024 - 10:01:00] next minute\n"
    );
}

#[test]
fn timestamp_must_open_the_line() {
    check(" [01/01/2024 - 10:00:00] indented\n[1/01/2024 - 10:00:00] short day\n[01/01/2024 - 10:00:00 unclosed\n[01/01/2024-10:00:00] no spaces\n[01/01/2024 - 10:00:00]tight\n");
}

#[test]
fn non_ascii_digits_are_untimed() {
    // Arabic-Indic digits match `\d` but chrono does not read them.
    check("[\u{661}\u{662}/01/2024 - 10:00:00] arabic\n[01/01/2024 - 10:00:00] plain\n");
}

#[test]
fn line_endings() {
    check("[02/01/2024 - 00:00:00] b\r\n[01/01/2024 - 00:00:00] a\r\n");
    check("[02/01/2024 - 00:00:00] b\n[01/01/2024 - 00:00:00] a");
    check("x\r\n\r\n\n[01/01/2024 - 00:00:00] a\r");
    check("tail\r");
    check("");
    check("\n");
    check("\n\n");
    let log = check("only text");
    assert_eq!(log.text, "\n# Lines without a recognized timestamp:\nonly text\n");
}

#[test]
fn many_lines_match_the_reference() {
    let mut content = String::new();
    let mut seed: u64 = 12345;
    for i in 0..500 {
        seed = seed.wrapping_mul(6364136223846793005).wrapping_add(1442695040888963407);
        let d = (seed >> 33) % 31 + 1;
        let m = (seed >> 40) % 12 + 1;
        let y = 2019 + (seed >> 50) % 3;
        let h = (seed >> 20) % 24;
        let mi = (seed >> 10) % 4;
        if i % 17 == 0 {
            content.push_str(&format!("garbage line {}\n", i));
        } else {
            content.push_str(&format!("[{:02}/{:02}/{:04} - {:02}:{:02}:00] event {}\n", d, m, y, h, mi, i));
        }
    }
    check(&content);
}

#[test]
fn line_timestamp_fields() {
    let line: Vec<char> = "[29/02/2024 - 23:59:60] x".chars().collect();
    let t = line_timestamp(&line).unwrap();
    assert_eq!(
        t,
        LogTime { year: 2024, month: 2, day: 29, hour: 23, minute: 59, second: 59, nanosecond: 1_000_000_000 }
    );
    let no: Vec<char> = "[30/02/2024 - 23:59:59] x".chars().collect();
    assert_eq!(line_timestamp(&no), None);
}

#[test]
fn keys_follow_the_calendar() {
    let a = LogTime { year: 2023, month: 12, day: 31, hour: 23, minute: 59, second: 59, nanosecond: 1_000_000_000 };
    let b = LogTime { year: 2024, month: 1, day: 1, hour: 0, minute: 0, second: 0, nanosecond: 0 };
    let c = LogTime { year: 2023, month: 12, day: 31, hour: 23, minute: 59, second: 59, nanosecond: 0 };
    assert!(log_time_key(&c) < log_time_key(&a));
    assert!(log_time_key(&a) < log_time_key(&b));
    assert_eq!(log_time_key(&b), ((((2024 * 12) * 31) * 24) * 60 * 60) * 2);
}

#[test]
fn stable_order_by_key() {
    assert_eq!(stable_order(&vec![3, 1, 2, 1, 3, 0]), vec![5, 1, 3, 2, 0, 4]);
    assert_eq!(stable_order(&vec![]), Vec::<usize>::new());
    assert_eq!(stable_order(&vec![7]), vec![0]);
    assert_eq!(stable_order(&vec![2, 2, 2]), vec![0, 1, 2]);
    let keys: Vec<u64> = (0..1000u64).map(|i| (i * 7919) % 13).collect();
    let order = stable_order(&keys);
    let mut expected: Vec<usize> = (0..keys.len()).collect();
    expected.sort_by_key(|&i| keys[i]);
    assert_eq!(order, expected);
}

#[test]
fn summary_after_writing() {
    let log = sort_log("[01/01/2024 - 00:00:00] a\nb\nc\n");
    assert_eq!(
        order_summary(&log, "out.log"),
        "Sorted 1 lines -> out.log\n  2 line(s) had no timestamp and were appended at the end.\n"
    );
    let log = sort_log("[01/01/2024 - 00:00:00] a\n");
    assert_eq!(order_summary(&log, "x"), "Sorted 1 lines -> x\n");
}

#[test]
fn minecraft_run_orders() {
    let args = MinecraftArgs {
        command: MinecraftCommands::Order(OrderArgs { input: "in.log".to_string(), output: None }),
    };
    assert_eq!(input_path(&args), "in.log");
    let log = run(&args, "[02/01/2024 - 00:00:00] b\n[01/01/2024 - 00:00:00] a\n");
    assert_eq!(log.text, "[01/01/2024 - 00:00:00] a\n[02/01/2024 - 00:00:00] b\n");
}
