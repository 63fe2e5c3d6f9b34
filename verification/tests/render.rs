use wmtext::model::{
    FileReport, FileStatus, Finding, ScanError, ScanReport, Severity, StatisticalStatus, Summary, ToolInfo,
};
use wmtext::render::{human, rules, sanitize_human};
use wmtext::sanitizer::{InputProbe, SanitizeOptions, SanitizeRequest, sanitize_file};
use wmtext::scanner::ReadOutcome;

fn summary(considered: usize, scanned: usize, skipped: usize, with: usize, total: usize, high: usize) -> Summary {
    Summary {
        files_considered: considered,
        files_scanned: scanned,
        files_with_findings: with,
        files_skipped: skipped,
        findings_total: total,
        findings_info: 0,
        findings_warning: 0,
        findings_high: high,
        findings_truncated: 0,
    }
}

fn file(path: &str, status: FileStatus, findings: Vec<Finding>, truncated: usize, note: Option<&str>) -> FileReport {
    FileReport {
        path: path.to_owned(),
        size_bytes: 1,
        status,
        encoding: None,
        metrics: None,
        findings,
        findings_truncated: truncated,
        note: note.map(|value| value.to_owned()),
    }
}

#[test]
fn human_report_lists_files_errors_and_summary() {
    let finding = Finding {
        rule_id: "unicode.format_control",
        category: "unicode",
        severity: Severity::High,
        message: "msg".to_owned(),
        codepoint: Some("U+200B".to_owned()),
        unicode_name: None,
        byte_offset: 1,
        char_offset: 1,
        line: 1,
        column: 2,
        context: "ctx".to_owned(),
        interpretation: "i",
    };
    let report = ScanReport {
        schema_version: 1,
        tool: ToolInfo { name: "wmtext", version: "0.1.0" },
        statistical_watermark_status: StatisticalStatus { status: "indeterminate", reason: "r" },
        summary: summary(4, 2, 2, 1, 1, 1),
        files: vec![
            file("f.md", FileStatus::SurfaceFindingsPresent, vec![finding], 2, None),
            file("g.md", FileStatus::NoSupportedSurfaceSignalDetected, Vec::new(), 0, None),
            file("h.md", FileStatus::SkippedBinary, Vec::new(), 0, Some("note")),
            file("i.md", FileStatus::SkippedNonUtf8, Vec::new(), 0, None),
        ],
        errors: vec![ScanError { path: "x".to_owned(), message: "y".to_owned() }],
    };
    let expected = [
        "wmtext 0.1.0 – read-only text signal scan",
        "Statistical watermark: indeterminate (r)",
        "",
        "FIND f.md – 1 finding(s)",
        "  [HIGH] f.md:1:2 unicode.format_control U+200B – msg",
        "         context: ctx",
        "  ... 2 additional finding(s) truncated",
        "OK   g.md – no supported surface signal detected",
        "SKIP h.md – note",
        "SKIP i.md – unsupported input",
        "ERROR x – y",
        "",
        "Summary: 4 considered, 2 scanned, 2 skipped, 1 with findings; 1 retained findings (0 info, 0 warning, 1 high)",
        "Conclusion: findings are observable text anomalies, not provider attribution.",
    ]
    .join("\n");
    assert_eq!(human(&report), expected);
}

#[test]
fn clean_file_report_concludes_indeterminate() {
    let report = ScanReport {
        schema_version: 1,
        tool: ToolInfo { name: "wmtext", version: "0.1.0" },
        statistical_watermark_status: StatisticalStatus { status: "indeterminate", reason: "r" },
        summary: summary(1, 1, 0, 0, 0, 0),
        files: vec![file("ok.md", FileStatus::NoSupportedSurfaceSignalDetected, Vec::new(), 0, None)],
        errors: Vec::new(),
    };
    let text = human(&report);
    assert!(text.contains("no supported surface signal detected"));
    assert!(text.contains("Statistical watermark: indeterminate"));
    assert!(text.ends_with(
        "Conclusion: no supported surface signal was detected. Proprietary statistical watermark detection remains indeterminate."
    ));
}

#[test]
fn sanitation_report_is_rendered_for_people() {
    let request = SanitizeRequest {
        input: "in.md".to_owned(),
        output: Some("out.md".to_owned()),
        in_place: false,
        dry_run: false,
        force: false,
        max_bytes: 100,
        options: SanitizeOptions { strip_trailing_whitespace: false },
    };
    let bytes = "a\u{200D}b\n".as_bytes().to_vec();
    let probe = InputProbe::Stat { len: bytes.len() as u64, contents: ReadOutcome::Bytes(bytes) };
    let plan = sanitize_file(&request, probe).ok().unwrap();
    let text = sanitize_human(&plan.report);
    let operation = format!("  Remove in.md:1:2 joiner U+200D – {}", plan.report.operations[0].reason);
    let expected = [
        "wmtext 0.1.0 – deterministic text sanitation",
        "Input: in.md",
        "Output: out.md",
        "Changed: true",
        "Removed: 1",
        operation.as_str(),
        "Note: Deterministic Unicode/text sanitation only; statistical watermark status remains indeterminate.",
    ]
    .join("\n");
    assert_eq!(text, expected);
}

#[test]
fn dry_run_report_says_nothing_is_written() {
    let request = SanitizeRequest {
        input: "in.md".to_owned(),
        output: None,
        in_place: false,
        dry_run: true,
        force: false,
        max_bytes: 100,
        options: SanitizeOptions { strip_trailing_whitespace: false },
    };
    let bytes = b"plain\n".to_vec();
    let probe = InputProbe::Stat { len: bytes.len() as u64, contents: ReadOutcome::Bytes(bytes) };
    let plan = sanitize_file(&request, probe).ok().unwrap();
    let text = sanitize_human(&plan.report);
    assert!(text.contains("\nMode: dry-run (nothing written)\nChanged: false\nRemoved: 0\nNote: "));
}

#[test]
fn rules_list_every_rule() {
    let text = rules();
    assert!(text.starts_with("Built-in rules:\nunicode.format_control "));
    assert!(text.contains("\nunicode.non_nfc                     informational NFC normalization check\n\nSanitize"));
    assert!(!text.contains("\n  unicode."));
    for rule in [
        "unicode.format_control",
        "unicode.control_character",
        "unicode.joiner",
        "unicode.bidi_control",
        "unicode.tag_character",
        "unicode.variation_selector_channel",
        "unicode.non_ascii_spaces",
        "text.trailing_whitespace",
        "unicode.mixed_script_token",
        "unicode.combining_mark_run",
        "unicode.private_use",
        "unicode.non_nfc",
    ] {
        assert!(text.contains(rule));
    }
    assert!(text.ends_with("None identifies an AI provider."));
}

#[test]
fn rules_text_is_the_listing_without_indentation() {
    let expected = "Built-in rules:\n\
  unicode.format_control             unexpected invisible format controls\n\
  unicode.control_character          unexpected C0/C1 controls\n\
  unicode.joiner                     context-aware ZWJ/ZWNJ review\n\
  unicode.bidi_control                bidi embeddings, overrides, and isolates\n\
  unicode.tag_character               invisible Unicode tag payload characters\n\
  unicode.variation_selector_channel  unusual variation-selector use or density\n\
  unicode.non_ascii_spaces            aggregate non-ASCII whitespace distribution\n\
  text.trailing_whitespace            aggregate trailing-space/tab channel\n\
  unicode.mixed_script_token          Latin/Cyrillic/Greek mixed-token heuristic\n\
  unicode.combining_mark_run          unusually long combining-mark run\n\
  unicode.private_use                 private-use codepoints requiring review\n\
  unicode.non_nfc                     informational NFC normalization check\n\n\
Sanitize removes every recognized invisible/format and private-use character. Non-ASCII spaces are preserved.\n\n\
Every rule reports an observable surface property. None identifies an AI provider.";
    assert_eq!(rules(), expected);
}
