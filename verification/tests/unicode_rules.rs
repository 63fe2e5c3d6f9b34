use wmtext::model::Severity;
use wmtext::unicode_rules::analyze_text;

#[test]
fn clean_ascii_text_has_no_findings() {
    let result = analyze_text("ordinary markdown\n", 0, 100);
    assert!(result.findings.is_empty());
    assert!(result.metrics.nfc_normalized);
}

#[test]
fn zero_width_space_is_high_severity() {
    let text = format!("hello{}world", char::from_u32(0x200B).unwrap());
    let result = analyze_text(&text, 0, 100);
    assert!(result.findings.iter().any(|finding| {
        finding.rule_id == "unicode.format_control" && finding.severity == Severity::High
    }));
}

#[test]
fn mixed_latin_and_cyrillic_token_is_reported() {
    let text = format!("p{}ypal", char::from_u32(0x0430).unwrap());
    let result = analyze_text(&text, 0, 100);
    assert!(result.findings.iter().any(|finding| finding.rule_id == "unicode.mixed_script_token"));
}

#[test]
fn ordinary_emoji_selector_is_informational() {
    let text = format!("{}{}", char::from_u32(0x2764).unwrap(), char::from_u32(0xFE0F).unwrap());
    let result = analyze_text(&text, 0, 100);
    assert!(result.findings.iter().any(|finding| {
        finding.rule_id == "unicode.variation_selector_channel" && finding.severity == Severity::Info
    }));
}

#[test]
fn unicode_tag_character_is_high_severity() {
    let text = format!("a{}b", char::from_u32(0xE0061).unwrap());
    let result = analyze_text(&text, 0, 100);
    assert!(result.findings.iter().any(|finding| {
        finding.rule_id == "unicode.tag_character" && finding.severity == Severity::High
    }));
}

#[test]
fn byte_offsets_include_utf8_bom_without_breaking_context() {
    let text = format!("é{}x", char::from_u32(0x200B).unwrap());
    let result = analyze_text(&text, 3, 100);
    let finding = result.findings.iter().find(|finding| finding.rule_id == "unicode.format_control").unwrap();
    assert_eq!(finding.byte_offset, 5);
    assert!(finding.context.contains("U+200B"));
}

#[test]
fn emoji_joiner_is_informational() {
    let text = format!(
        "{}{}{}",
        char::from_u32(0x1F469).unwrap(),
        char::from_u32(0x200D).unwrap(),
        char::from_u32(0x1F4BB).unwrap()
    );
    let result = analyze_text(&text, 0, 100);
    assert!(result.findings.iter().any(|finding| {
        finding.rule_id == "unicode.joiner" && finding.severity == Severity::Info
    }));
}

#[test]
fn complete_flag_tags_are_informational() {
    let text = "🏴\u{E0067}\u{E0062}\u{E0073}\u{E0063}\u{E0074}\u{E007F}";
    let result = analyze_text(text, 0, 100);
    assert!(result.findings.iter().any(|finding| {
        finding.rule_id == "unicode.tag_character" && finding.severity == Severity::Info
    }));
}

#[test]
fn private_use_character_requires_review() {
    let result = analyze_text("a\u{E000}b", 0, 100);
    assert!(result.findings.iter().any(|finding| {
        finding.rule_id == "unicode.private_use" && finding.severity == Severity::Warning
    }));
}

#[test]
fn floating_emoji_selector_is_reported() {
    let result = analyze_text("a\u{FE0F}b", 0, 100);
    assert!(result.findings.iter().any(|finding| {
        finding.rule_id == "unicode.variation_selector_channel" && finding.severity == Severity::Warning
    }));
}

#[test]
fn dense_non_ascii_spaces_are_warning() {
    let nbsp = char::from_u32(0x00A0).unwrap();
    let text = format!("one{nbsp}two{nbsp}three{nbsp}four{nbsp}five");
    let result = analyze_text(&text, 0, 100);
    assert!(result.findings.iter().any(|finding| {
        finding.rule_id == "unicode.non_ascii_spaces" && finding.severity == Severity::Warning
    }));
}

#[test]
fn supplementary_variation_selector_payload_is_high() {
    let selector = char::from_u32(0xE0100).unwrap();
    let text = format!("x{selector}{selector}{selector}{selector}");
    let result = analyze_text(&text, 0, 100);
    assert!(result.findings.iter().any(|finding| {
        finding.rule_id == "unicode.variation_selector_channel" && finding.severity == Severity::High
    }));
}

#[test]
fn unexpected_ascii_control_is_high() {
    let text = "left\u{0001}right";
    let result = analyze_text(text, 0, 100);
    assert!(result.findings.iter().any(|finding| {
        finding.rule_id == "unicode.control_character" && finding.severity == Severity::High
    }));
}

#[test]
fn repeated_single_trailing_spaces_are_warning() {
    let text = "one \ntwo \nthree \nfour \n";
    let result = analyze_text(text, 0, 100);
    assert_eq!(result.metrics.trailing_whitespace_line_count, 4);
    assert_eq!(result.metrics.trailing_space_count, 4);
    assert!(result.findings.iter().any(|finding| {
        finding.rule_id == "text.trailing_whitespace"
            && finding.severity == Severity::Warning
            && finding.context.ends_with("<SPACE>")
    }));
}

#[test]
fn one_markdown_hard_break_is_informational() {
    let text = "line one  \nline two\n";
    let result = analyze_text(text, 0, 100);
    assert!(result.findings.iter().any(|finding| {
        finding.rule_id == "text.trailing_whitespace" && finding.severity == Severity::Info
    }));
}

#[test]
fn findings_are_capped() {
    let zwsp = char::from_u32(0x200B).unwrap();
    let text: String = std::iter::repeat_n(zwsp, 20).collect();
    let result = analyze_text(&text, 0, 3);
    assert_eq!(result.findings.len(), 3);
    assert_eq!(result.truncated, 17);
}

#[test]
fn decomposed_text_is_not_nfc() {
    let result = analyze_text("cafe\u{0301}", 0, 100);
    assert!(!result.metrics.nfc_normalized);
    assert!(result.findings.iter().any(|finding| {
        finding.rule_id == "unicode.non_nfc" && finding.severity == Severity::Info
    }));
    let composed = analyze_text("caf\u{00E9}", 0, 100);
    assert!(composed.metrics.nfc_normalized);
    assert!(!composed.findings.iter().any(|finding| finding.rule_id == "unicode.non_nfc"));
}

#[test]
fn finding_positions_are_one_based_lines_and_columns() {
    let result = analyze_text("ab\ncd\u{200B}e", 0, 100);
    let finding = result.findings.iter().find(|finding| finding.rule_id == "unicode.format_control").unwrap();
    assert_eq!(finding.line, 2);
    assert_eq!(finding.column, 3);
    assert_eq!(finding.char_offset, 5);
    assert_eq!(finding.byte_offset, 5);
    assert_eq!(finding.codepoint.as_deref(), Some("U+200B"));
    assert_eq!(finding.unicode_name.as_deref(), Some("ZERO WIDTH SPACE"));
}

#[test]
fn metrics_count_lines_and_spaces() {
    let result = analyze_text("a b\u{00A0}c\nd\t\n", 0, 100);
    assert_eq!(result.metrics.unicode_scalar_count, 9);
    assert_eq!(result.metrics.line_count, 3);
    assert_eq!(result.metrics.ascii_space_count, 1);
    assert_eq!(result.metrics.non_ascii_space_count, 1);
    assert_eq!(result.metrics.trailing_tab_count, 1);
}

#[test]
fn cap_of_zero_keeps_no_findings() {
    let result = analyze_text("a\u{200B}b\u{200C}c", 0, 0);
    assert!(result.findings.is_empty());
    assert!(result.truncated >= 2);
}

#[test]
fn non_ascii_space_share_is_printed_as_binary64_computes_it() {
    let text = format!("{}{}", "\u{00A0}".repeat(23), " ".repeat(137));
    let result = analyze_text(&text, 0, 100);
    let finding = result.findings.iter().find(|finding| finding.rule_id == "unicode.non_ascii_spaces").unwrap();
    assert_eq!(finding.message, "Found 23 non-ASCII space characters (14.37% of space-like characters)");
    assert_eq!(finding.severity, Severity::Warning);
}

#[test]
fn non_ascii_space_warning_starts_at_two_percent() {
    let at = format!("{}{}", "\u{00A0}".repeat(4), " ".repeat(196));
    let finding = analyze_text(&at, 0, 100).findings.into_iter().find(|f| f.rule_id == "unicode.non_ascii_spaces").unwrap();
    assert_eq!(finding.severity, Severity::Warning);
    assert_eq!(finding.message, "Found 4 non-ASCII space characters (2.00% of space-like characters)");
    let below = format!("{}{}", "\u{00A0}".repeat(4), " ".repeat(197));
    let finding = analyze_text(&below, 0, 100).findings.into_iter().find(|f| f.rule_id == "unicode.non_ascii_spaces").unwrap();
    assert_eq!(finding.severity, Severity::Info);
}

#[test]
fn byte_base_moves_only_byte_offsets() {
    let text = "a\u{200B}b\u{E000} p\u{0430}ypal one  \ncafe\u{0301}\u{00A0}x";
    let at_zero = analyze_text(text, 0, 100);
    let base = usize::MAX - (text.len() - 1);
    let shifted = analyze_text(text, base, 100);
    assert_eq!(at_zero.metrics, shifted.metrics);
    assert_eq!(at_zero.truncated, shifted.truncated);
    assert_eq!(at_zero.findings.len(), shifted.findings.len());
    for (a, b) in at_zero.findings.iter().zip(shifted.findings.iter()) {
        assert_eq!(a.byte_offset + base, b.byte_offset);
        assert_eq!(a.rule_id, b.rule_id);
        assert_eq!(a.severity, b.severity);
        assert_eq!(a.message, b.message);
        assert_eq!(a.codepoint, b.codepoint);
        assert_eq!(a.char_offset, b.char_offset);
        assert_eq!(a.line, b.line);
        assert_eq!(a.column, b.column);
        assert_eq!(a.context, b.context);
    }
}

#[test]
fn an_unlimited_cap_truncates_nothing() {
    let text: String = std::iter::repeat_n('\u{200B}', 20).collect();
    let all = analyze_text(&text, 0, usize::MAX);
    assert_eq!(all.findings.len(), 20);
    assert_eq!(all.truncated, 0);
    let some = analyze_text(&text, 0, 5);
    assert_eq!(some.findings.len(), 5);
    for (a, b) in some.findings.iter().zip(all.findings.iter()) {
        assert_eq!(a.char_offset, b.char_offset);
    }
}

#[test]
fn the_last_character_may_sit_at_the_largest_offset() {
    let result = analyze_text("a\u{200B}", usize::MAX - 1, 10);
    let finding = result.findings.iter().find(|finding| finding.rule_id == "unicode.format_control").unwrap();
    assert_eq!(finding.byte_offset, usize::MAX);
    let plain = analyze_text("a", usize::MAX, 10);
    assert!(plain.findings.is_empty());
    assert_eq!(plain.metrics.unicode_scalar_count, 1);
}
