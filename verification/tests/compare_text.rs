use oj::compare::{compare_output, str_eq};
use oj::contest::{format_vec, parse_vec};
use oj::text::{u64_to_string, usize_to_string};
use oj::timestamp::{format_timestamp, parse_timestamp, ts_before, Timestamp};
use oj::wire::ProblemType;

#[test]
fn standard_ignores_trailing_whitespace() {
    assert!(compare_output("1 2\n3 4\n", "1 2   \n3 4\t\n", ProblemType::Standard));
    assert!(compare_output("a\r\nb\r\n", "a\nb\n", ProblemType::Standard));
    assert!(compare_output("x", "x   ", ProblemType::Standard));
}

#[test]
fn standard_ignores_blank_extra_lines() {
    assert!(compare_output("1\n2\n\n\n", "1\n2\n", ProblemType::Standard));
    assert!(compare_output("1\n2\n", "1\n2\n   \n\t\n", ProblemType::Standard));
    assert!(compare_output("", "\n\n", ProblemType::Standard));
}

#[test]
fn standard_matches_blank_only_files() {
    assert!(compare_output("", "", ProblemType::Standard));
    assert!(compare_output("\n", "", ProblemType::Standard));
    assert!(compare_output("  \n\t\n", "\n", ProblemType::Standard));
}

#[test]
fn standard_rejects_extra_nonblank_line() {
    assert!(!compare_output("1\n2\n3\n", "1\n2\n", ProblemType::Standard));
    assert!(!compare_output("1\n2\n", "1\n2\n3\n", ProblemType::Standard));
}

#[test]
fn standard_rejects_content_difference() {
    assert!(!compare_output("1 2\n", "1 3\n", ProblemType::Standard));
    assert!(!compare_output("ab\n", "a b\n", ProblemType::Standard));
    // A blank line inside the common prefix must match a blank line.
    assert!(!compare_output("a\n\nb\n", "a\nb\n", ProblemType::Standard));
}

#[test]
fn strict_is_byte_exact() {
    assert!(compare_output("1 2\n", "1 2\n", ProblemType::Strict));
    assert!(!compare_output("1 2\n", "1 2 \n", ProblemType::Strict));
    assert!(!compare_output("1 2", "1 2\n", ProblemType::Strict));
}

#[test]
fn unsupported_modes_never_match() {
    assert!(!compare_output("same", "same", ProblemType::Spj));
    assert!(!compare_output("same", "same", ProblemType::DynamicRanking));
}

#[test]
fn str_eq_behaves() {
    assert!(str_eq("abc", "abc"));
    assert!(!str_eq("abc", "abd"));
    assert!(!str_eq("abc", "abcd"));
    assert!(str_eq("", ""));
}

#[test]
fn numerals_render_exactly() {
    assert_eq!(u64_to_string(0), "0");
    assert_eq!(u64_to_string(7), "7");
    assert_eq!(u64_to_string(1234567890), "1234567890");
    assert_eq!(usize_to_string(105), "105");
}

#[test]
fn vec_codec_round_trips() {
    let v: Vec<usize> = vec![0, 15, 3, 42];
    let s = format_vec(&v);
    assert_eq!(s, "0,15,3,42");
    assert_eq!(parse_vec(s), v);
}

#[test]
fn vec_codec_single_element() {
    let v: Vec<usize> = vec![9];
    let s = format_vec(&v);
    assert_eq!(s, "9");
    assert_eq!(parse_vec(s), v);
}

#[test]
fn timestamp_round_trips() {
    let t = Timestamp {
        year: 2022,
        month: 8,
        day: 27,
        hour: 2,
        minute: 5,
        second: 29,
        millisecond: 0,
    };
    let s = format_timestamp(&t);
    assert_eq!(s, "2022-08-27T02:05:29.000Z");
    assert_eq!(parse_timestamp(&s), Some(t));
}

#[test]
fn timestamp_parses_wire_text() {
    let t = parse_timestamp("1999-12-31T23:59:59.999Z").unwrap();
    assert_eq!(t.year, 1999);
    assert_eq!(t.month, 12);
    assert_eq!(t.day, 31);
    assert_eq!(t.millisecond, 999);
}

#[test]
fn timestamp_rejects_malformed_text() {
    assert_eq!(parse_timestamp(""), None);
    assert_eq!(parse_timestamp("2022-08-27 02:05:29.000Z"), None);
    assert_eq!(parse_timestamp("2022-13-01T00:00:00.000Z"), None);
    assert_eq!(parse_timestamp("2022-00-01T00:00:00.000Z"), None);
    assert_eq!(parse_timestamp("2022-02-30T00:00:00.000Z"), None);
    assert_eq!(parse_timestamp("2022-08-27T24:00:00.000Z"), None);
    assert_eq!(parse_timestamp("2022-08-27T02:05:29.000"), None);
}

#[test]
fn timestamp_knows_leap_years() {
    assert!(parse_timestamp("2020-02-29T00:00:00.000Z").is_some());
    assert_eq!(parse_timestamp("2021-02-29T00:00:00.000Z"), None);
    assert!(parse_timestamp("2000-02-29T00:00:00.000Z").is_some());
    assert_eq!(parse_timestamp("1900-02-29T00:00:00.000Z"), None);
}

#[test]
fn timestamp_orders_chronologically() {
    let a = parse_timestamp("2022-08-27T02:05:29.000Z").unwrap();
    let b = parse_timestamp("2022-08-27T02:05:29.001Z").unwrap();
    let c = parse_timestamp("2023-01-01T00:00:00.000Z").unwrap();
    assert!(ts_before(&a, &b));
    assert!(ts_before(&b, &c));
    assert!(!ts_before(&c, &a));
    assert!(!ts_before(&a, &a));
}
