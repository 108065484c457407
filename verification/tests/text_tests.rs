use music_organizer::text::{
    eq_ignore_case, join_comma, pad2_str, parse_confirmation, parse_selection, parse_usize,
    split_nul, str_lower, trim_newlines, u16_dec,
};

#[test]
fn lowercase_maps_ascii_only() {
    assert_eq!(str_lower("PrInCe 123!"), "prince 123!");
    assert_eq!(str_lower(""), "");
    assert_eq!(str_lower("àÉ"), "àÉ");
}

#[test]
fn case_insensitive_equality() {
    assert!(eq_ignore_case("Prince", "PRINCE"));
    assert!(eq_ignore_case("", ""));
    assert!(!eq_ignore_case("Prince", "Princess"));
    assert!(!eq_ignore_case("abc", "abd"));
}

#[test]
fn decimal_formatting() {
    assert_eq!(u16_dec(0), "0");
    assert_eq!(u16_dec(7), "7");
    assert_eq!(u16_dec(65535), "65535");
    assert_eq!(pad2_str(0), "00");
    assert_eq!(pad2_str(3), "03");
    assert_eq!(pad2_str(10), "10");
    assert_eq!(pad2_str(123), "123");
}

#[test]
fn parse_usize_accepts_digit_runs() {
    assert_eq!(parse_usize("0"), Some(0));
    assert_eq!(parse_usize("42"), Some(42));
    assert_eq!(parse_usize("007"), Some(7));
}

#[test]
fn parse_usize_rejects_bad_input() {
    assert_eq!(parse_usize(""), None);
    assert_eq!(parse_usize("4a"), None);
    assert_eq!(parse_usize("-1"), None);
    assert_eq!(parse_usize(" 3"), None);
    assert_eq!(parse_usize("99999999999999999999999999"), None);
}

#[test]
fn selection_trims_and_bounds() {
    assert_eq!(parse_selection("2\n", 4), Some(2));
    assert_eq!(parse_selection("\n3\n", 4), Some(3));
    assert_eq!(parse_selection("4\n", 4), None);
    assert_eq!(parse_selection("x\n", 4), None);
    assert_eq!(parse_selection("\n", 4), None);
}

#[test]
fn trimming_newlines_both_ends() {
    assert_eq!(trim_newlines("\n\nab\n"), "ab");
    assert_eq!(trim_newlines("ab"), "ab");
    assert_eq!(trim_newlines("\n\n"), "");
}

#[test]
fn confirmation_lines() {
    assert_eq!(parse_confirmation("\n"), Some(true));
    assert_eq!(parse_confirmation("y\n"), Some(true));
    assert_eq!(parse_confirmation("Y\n"), Some(true));
    assert_eq!(parse_confirmation("n\n"), Some(false));
    assert_eq!(parse_confirmation("N\n"), Some(false));
    assert_eq!(parse_confirmation("maybe\n"), None);
    assert_eq!(parse_confirmation(""), None);
}

#[test]
fn joining_names() {
    assert_eq!(join_comma(&vec![]), "");
    assert_eq!(join_comma(&vec!["A".to_string()]), "A");
    assert_eq!(join_comma(&vec!["A".to_string(), "B".to_string(), "C".to_string()]), "A, B, C");
}

#[test]
fn splitting_nul_separated_frames() {
    assert_eq!(split_nul("A\u{0}B"), vec!["A".to_string(), "B".to_string()]);
    assert_eq!(split_nul("solo"), vec!["solo".to_string()]);
    assert_eq!(split_nul(""), vec!["".to_string()]);
    assert_eq!(split_nul("\u{0}"), vec!["".to_string(), "".to_string()]);
}
