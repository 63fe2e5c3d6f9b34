use wmtext::binary64::{at_least_two_percent, push_percent};
use wmtext::text::{decimal_string, format_codepoint, trim_end_owned};

#[test]
fn codepoints_are_formatted_with_at_least_four_hex_digits() {
    assert_eq!(format_codepoint('\u{200B}'), "U+200B");
    assert_eq!(format_codepoint('a'), "U+0061");
    assert_eq!(format_codepoint('\u{E0100}'), "U+E0100");
    assert_eq!(format_codepoint('\u{10FFFF}'), "U+10FFFF");
}

#[test]
fn decimals_are_written_without_padding() {
    assert_eq!(decimal_string(0), "0");
    assert_eq!(decimal_string(1024), "1024");
    assert_eq!(decimal_string(u64::MAX), "18446744073709551615");
}

fn percent(part: u64, total: u64) -> String {
    let mut s = String::new();
    push_percent(&mut s, part, total);
    s
}

#[test]
fn percentages_round_to_two_decimals() {
    assert_eq!(percent(1, 3), "33.33");
    assert_eq!(percent(2, 3), "66.67");
    assert_eq!(percent(4, 4), "100.00");
    assert_eq!(percent(7, 9), "77.78");
}

#[test]
fn percentages_follow_binary64_rounding() {
    assert_eq!(percent(23, 160), "14.37");
    assert_eq!(percent(49, 160), "30.63");
    assert_eq!(percent(1, 160), "0.62");
    assert_eq!(percent(1, 8), "12.50");
    assert_eq!(percent(3, 8), "37.50");
    assert_eq!(percent(1, 1_000_000), "0.00");
    for (part, total) in [(23u64, 160u64), (49, 160), (1, 7), (5, 11), (123_456, 7_654_321), (u64::MAX - 5, u64::MAX)] {
        assert_eq!(percent(part, total), format!("{:.2}", part as f64 / total as f64 * 100.0));
    }
}

#[test]
fn two_percent_threshold_follows_binary64_comparison() {
    assert!(at_least_two_percent(4, 200));
    assert!(at_least_two_percent(1, 50));
    assert!(!at_least_two_percent(4, 201));
    assert!(!at_least_two_percent(1, 51));
    for (part, total) in [(4u64, 200u64), (2, 100), (3, 149), (3, 150), (3, 151), (u64::MAX / 50, u64::MAX)] {
        assert_eq!(at_least_two_percent(part, total), part as f64 / total as f64 >= 0.02);
    }
}

#[test]
fn trailing_whitespace_is_trimmed() {
    assert_eq!(trim_end_owned("text \n\t\u{3000}"), "text");
    assert_eq!(trim_end_owned("  "), "");
    assert_eq!(trim_end_owned(" a"), " a");
}

#[test]
fn small_ratios_match_binary64_exhaustively() {
    for total in 1u64..=300 {
        for part in 1..=total {
            let ratio = part as f64 / total as f64;
            assert_eq!(percent(part, total), format!("{:.2}", ratio * 100.0));
            assert_eq!(at_least_two_percent(part, total), ratio >= 0.02);
        }
    }
}
