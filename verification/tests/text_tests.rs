use brodo_utils::text::{chars_of, decimal_string, split_lines_of, utf8_len_of};

fn lines(s: &str) -> Vec<String> {
    split_lines_of(&chars_of(s)).into_iter().map(|l| l.into_iter().collect()).collect()
}

#[test]
fn lines_as_str_lines_gives_them() {
    let samples = [
        "", "\n", "a", "a\n", "a\nb", "a\r\nb\r\n", "foo\r\nbar\n\nbaz\r", "\r", "\r\n", "a\r\r\n",
        "\n\n\n", "x\ny\r\n\r\nz",
    ];
    for s in samples.iter() {
        let expected: Vec<String> = s.lines().map(|l| l.to_string()).collect();
        assert_eq!(lines(s), expected, "{:?}", s);
    }
    assert_eq!(lines("foo\r\nbar\n\nbaz\r"), vec!["foo", "bar", "", "baz\r"]);
}

#[test]
fn decimal_numbers() {
    assert_eq!(decimal_string(0), "0");
    assert_eq!(decimal_string(7), "7");
    assert_eq!(decimal_string(10), "10");
    assert_eq!(decimal_string(1234567890), "1234567890");
    assert_eq!(decimal_string(usize::MAX), usize::MAX.to_string());
}

#[test]
fn utf8_lengths() {
    for s in ["", "abc", "é", "日本", "🦀x"].iter() {
        assert_eq!(utf8_len_of(&s.chars().collect()), s.len());
    }
}
