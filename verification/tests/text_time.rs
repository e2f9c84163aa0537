use pacemanbot::dispatcher::utils::{
    format_time, hrs_mins_secs_to_millis, millis_to_hrs_mins, millis_to_mins_secs, mins_secs_to_millis,
};
use pacemanbot::text::{
    chars_of, contains, ends_with, parse_uint_chars, remove_char, remove_pattern, split, starts_with,
    lowercase_chars, string_of, trim_chars, IntErrorKind,
};

fn v(s: &str) -> Vec<char> {
    s.chars().collect()
}

#[test]
fn format_time_writes_hours_a_zero_minutes_field_and_seconds() {
    assert_eq!(format_time(0), "0:00:00");
    assert_eq!(format_time(754000), "0:00:34");
    assert_eq!(format_time(3723000), "1:00:03");
    assert_eq!(format_time(36005999), "10:00:05");
}

#[test]
fn hours_and_minutes_to_millis() {
    assert_eq!(hrs_mins_secs_to_millis((1, 30)), 5400000);
    assert_eq!(hrs_mins_secs_to_millis((0, 0)), 0);
    assert_eq!(hrs_mins_secs_to_millis((255, 255)), 255 * 3600000 + 255 * 60000);
}

#[test]
fn millis_to_hours_keeps_minutes_at_zero() {
    assert_eq!(millis_to_hrs_mins(5400000), (1, 0));
    assert_eq!(millis_to_hrs_mins(3599999), (0, 0));
    assert_eq!(millis_to_hrs_mins(256 * 3600000), (0, 0));
}

#[test]
fn minutes_and_seconds_round_trip() {
    for m in [0u8, 1, 9, 200, 255] {
        for s in [0u8, 1, 30, 59] {
            assert_eq!(millis_to_mins_secs(mins_secs_to_millis((m, s))), (m, s));
        }
    }
    assert_eq!(mins_secs_to_millis((9, 30)), 570000);
    assert_eq!(millis_to_mins_secs(570999), (9, 30));
}

#[test]
fn hours_round_trip_with_zero_minutes() {
    for h in [0u8, 1, 3, 255] {
        assert_eq!(millis_to_hrs_mins(hrs_mins_secs_to_millis((h, 0))), (h, 0));
    }
}

#[test]
fn parse_unsigned_like_str_parse() {
    assert_eq!(parse_uint_chars(&v("255"), 255), Ok(255));
    assert_eq!(parse_uint_chars(&v("+7"), 255), Ok(7));
    assert_eq!(parse_uint_chars(&v("007"), 255), Ok(7));
    assert_eq!(parse_uint_chars(&v("256"), 255), Err(IntErrorKind::PosOverflow));
    assert_eq!(parse_uint_chars(&v(""), 255), Err(IntErrorKind::Empty));
    assert_eq!(parse_uint_chars(&v("+"), 255), Err(IntErrorKind::InvalidDigit));
    assert_eq!(parse_uint_chars(&v("-1"), 255), Err(IntErrorKind::InvalidDigit));
    assert_eq!(parse_uint_chars(&v("1a"), 255), Err(IntErrorKind::InvalidDigit));
    assert_eq!(parse_uint_chars(&v("4294967295"), 4294967295), Ok(4294967295));
}

#[test]
fn split_like_str_split() {
    let parts = split(&v("a::b:"), &v(":"));
    let got: Vec<String> = parts.iter().map(|p| string_of(p)).collect();
    assert_eq!(got, vec!["a", "", "b", ""]);
    let parts = split(&v("x\t\ty"), &v("\t\t"));
    let got: Vec<String> = parts.iter().map(|p| string_of(p)).collect();
    assert_eq!(got, vec!["x", "y"]);
    assert_eq!(split(&v(""), &v("\n")).len(), 1);
}

#[test]
fn removing_characters_and_patterns() {
    assert_eq!(string_of(&remove_char(&v("a b c"), ' ')), "abc");
    assert_eq!(string_of(&remove_pattern(&v("*NE*3"), &v("*"))), "NE3");
    assert_eq!(string_of(&remove_pattern(&v("aaa"), &v("aa"))), "a");
    assert_eq!(string_of(&remove_pattern(&v("abc"), &v(""))), "abc");
}

#[test]
fn trimming_white_space() {
    assert_eq!(string_of(&trim_chars(&v("  a b \t\n"))), "a b");
    assert_eq!(string_of(&trim_chars(&v("   "))), "");
}

#[test]
fn prefixes_suffixes_and_containment() {
    assert!(starts_with(&v("*115NE"), &v("*115")));
    assert!(!starts_with(&v("*1"), &v("*115")));
    assert!(ends_with(&v("```x```"), &v("```")));
    assert!(!ends_with(&v("``"), &v("```")));
    assert!(contains(&v("*NEPB"), &v("PB")));
    assert!(!contains(&v("*NE3:0"), &v("PB")));
}

#[test]
fn lower_case_and_char_views() {
    assert_eq!(lowercase_chars(&v("Its_Saanvi")), v("its_saanvi"));
    assert_eq!(string_of(&chars_of("héllo")), "héllo");
}
