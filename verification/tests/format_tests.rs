use lazyrss::format::{strip_day_leading_zero, to_strftime_format};

#[test]
fn test_to_strftime_format_default() {
    assert_eq!(to_strftime_format("D MMM YYYY"), ("%d %b %Y".to_string(), true));
}

#[test]
fn test_to_strftime_format_double_digit_day() {
    assert_eq!(to_strftime_format("DD MMM YYYY"), ("%d %b %Y".to_string(), false));
}

#[test]
fn test_to_strftime_format_full_month() {
    assert_eq!(to_strftime_format("D MMMM YYYY"), ("%d %B %Y".to_string(), true));
}

#[test]
fn test_to_strftime_format_two_digit_year() {
    assert_eq!(to_strftime_format("D MMM YY"), ("%d %b %y".to_string(), true));
}

#[test]
fn test_to_strftime_format_combined() {
    assert_eq!(to_strftime_format("DD MMMM YY"), ("%d %B %y".to_string(), false));
}

#[test]
fn test_strip_day_leading_zero_single_digit_day() {
    assert_eq!(strip_day_leading_zero("02 Nov 2025"), "2 Nov 2025");
}

#[test]
fn test_strip_day_leading_zero_double_digit_day() {
    assert_eq!(strip_day_leading_zero("12 Nov 2025"), "12 Nov 2025");
}

#[test]
fn test_strip_day_leading_zero_first_of_month() {
    assert_eq!(strip_day_leading_zero("01 Nov 2025"), "1 Nov 2025");
}

#[test]
fn test_strip_day_leading_zero_ninth_of_month() {
    assert_eq!(strip_day_leading_zero("09 Nov 2025"), "9 Nov 2025");
}

#[test]
fn test_strip_day_leading_zero_tenth_of_month() {
    assert_eq!(strip_day_leading_zero("10 Nov 2025"), "10 Nov 2025");
}

#[test]
fn test_to_strftime_format_abbreviated_weekday() {
    assert_eq!(to_strftime_format("ddd, D MMM YYYY"), ("%a, %d %b %Y".to_string(), true));
}

#[test]
fn test_to_strftime_format_full_weekday() {
    assert_eq!(to_strftime_format("dddd, D MMMM YYYY"), ("%A, %d %B %Y".to_string(), true));
}

#[test]
fn format_date_year_only() {
    // 2021-01-01 00:00:00 UTC.
    let s = lazyrss::render::format_article_date(1609459200, "YYYY");
    assert_eq!(s, "2021");
}

#[test]
fn format_date_strips_day_zero() {
    // 2021-01-01: a single-digit day under a bare-day format.
    let s = lazyrss::render::format_article_date(1609459200, "D MMM YYYY");
    assert_eq!(s, "1 Jan 2021");
}

#[test]
fn wrap_text_splits_on_width() {
    let lines = lazyrss::format::wrap_text("alpha beta gamma", 11, 5);
    assert_eq!(lines, vec!["alpha beta".to_string(), "gamma".to_string()]);
}

#[test]
fn wrap_text_caps_line_count() {
    let lines = lazyrss::format::wrap_text("one two three four", 4, 2);
    assert_eq!(lines, vec!["one".to_string(), "two".to_string()]);
}

#[test]
fn wrap_text_empty_input_gives_one_empty_line() {
    let lines = lazyrss::format::wrap_text("", 10, 3);
    assert_eq!(lines, vec![String::new()]);
}

#[test]
fn wrap_text_keeps_single_long_word() {
    let lines = lazyrss::format::wrap_text("unbreakable", 5, 3);
    assert_eq!(lines, vec!["unbreakable".to_string()]);
}

#[test]
fn test_to_strftime_format_five_consecutive_years() {
    // Each replacement pass rescans the previous pass's output: "YYYYY"
    // becomes "%YY" after the four-Y pass, whose trailing "YY" the two-Y
    // pass rewrites again.
    assert_eq!(to_strftime_format("YYYYY"), ("%%y".to_string(), false));
}

#[test]
fn test_format_article_date_unrenderable_format_is_empty() {
    // "%#z" parses to a strftime item that can only be parsed, never
    // formatted: the formatter reports it as an error and the date line is
    // left out instead of aborting.
    assert_eq!(lazyrss::render::format_article_date(0, "%#z"), "");
}
