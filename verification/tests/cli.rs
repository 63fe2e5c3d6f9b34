use wmtext::cli::{
    DEFAULT_EXTENSIONS, OutputFormat, SanitizeArgs, ScanArgs, sanitize_request, scan_exit_code, scan_options,
};
use wmtext::model::{
    FileReport, FileStatus, Finding, ScanError, ScanReport, Severity, StatisticalStatus, Summary, ToolInfo,
};

fn scan_args(extensions: &str) -> ScanArgs {
    ScanArgs {
        paths: vec!["docs".to_owned()],
        format: OutputFormat::Json,
        fail_on: Severity::Warning,
        hidden: true,
        no_ignore: false,
        max_bytes: 4096,
        max_findings: 7,
        extensions: extensions.to_owned(),
    }
}

#[test]
fn extension_set_normalizes_and_deduplicates() {
    let args = scan_args(" .MD, txt,,md , ..Rs,\u{00A0}\t");
    assert_eq!(args.extension_set(), vec!["md".to_owned(), "txt".to_owned(), "rs".to_owned()]);
}

#[test]
fn extension_set_keeps_a_lone_dot_as_empty_extension() {
    let args = scan_args(".");
    assert_eq!(args.extension_set(), vec![String::new()]);
    assert!(scan_args("").extension_set().is_empty());
    assert!(scan_args(" , ,").extension_set().is_empty());
}

#[test]
fn default_extensions_have_no_duplicates() {
    let set = scan_args(DEFAULT_EXTENSIONS).extension_set();
    assert_eq!(set.len(), DEFAULT_EXTENSIONS.split(',').count());
    assert!(set.contains(&"md".to_owned()));
    assert!(set.contains(&"fish".to_owned()));
}

#[test]
fn scan_options_follow_the_arguments() {
    let options = scan_options(&scan_args("MD"));
    assert!(options.include_hidden);
    assert!(options.respect_ignore_files);
    assert_eq!(options.max_bytes, 4096);
    assert_eq!(options.max_findings_per_file, 7);
    assert_eq!(options.extensions, vec!["md".to_owned()]);
}

#[test]
fn sanitize_request_follows_the_arguments() {
    let args = SanitizeArgs {
        input: "in.md".to_owned(),
        output: Some("out.md".to_owned()),
        in_place: false,
        dry_run: false,
        force: true,
        strip_trailing_whitespace: true,
        max_bytes: 99,
        format: OutputFormat::Human,
    };
    let request = sanitize_request(&args);
    assert_eq!(request.input, "in.md");
    assert_eq!(request.output.as_deref(), Some("out.md"));
    assert!(!request.in_place);
    assert!(!request.dry_run);
    assert!(request.force);
    assert_eq!(request.max_bytes, 99);
    assert!(request.options.strip_trailing_whitespace);
}

#[test]
fn output_format_defaults_to_human() {
    assert_eq!(OutputFormat::default(), OutputFormat::Human);
}

fn finding(severity: Severity) -> Finding {
    Finding {
        rule_id: "unicode.private_use",
        category: "unicode",
        severity,
        message: "m".to_owned(),
        codepoint: None,
        unicode_name: None,
        byte_offset: 0,
        char_offset: 0,
        line: 1,
        column: 1,
        context: String::new(),
        interpretation: "i",
    }
}

fn report(severities: &[Severity], errors: usize) -> ScanReport {
    ScanReport {
        schema_version: 1,
        tool: ToolInfo { name: "wmtext", version: "0.1.0" },
        statistical_watermark_status: StatisticalStatus { status: "indeterminate", reason: "r" },
        summary: Summary {
            files_considered: 1,
            files_scanned: 1,
            files_with_findings: 0,
            files_skipped: 0,
            findings_total: 0,
            findings_info: 0,
            findings_warning: 0,
            findings_high: 0,
            findings_truncated: 0,
        },
        files: vec![FileReport {
            path: "f.md".to_owned(),
            size_bytes: 1,
            status: FileStatus::SurfaceFindingsPresent,
            encoding: Some("utf-8"),
            metrics: None,
            findings: severities.iter().map(|severity| finding(*severity)).collect(),
            findings_truncated: 0,
            note: None,
        }],
        errors: (0..errors).map(|_| ScanError { path: "x".to_owned(), message: "y".to_owned() }).collect(),
    }
}

#[test]
fn exit_code_is_two_on_errors() {
    assert_eq!(scan_exit_code(&report(&[Severity::High], 1), Severity::Warning), 2);
    assert_eq!(scan_exit_code(&report(&[], 2), Severity::Never), 2);
}

#[test]
fn exit_code_follows_the_threshold() {
    let warning = report(&[Severity::Info, Severity::Warning], 0);
    assert_eq!(scan_exit_code(&warning, Severity::Info), 1);
    assert_eq!(scan_exit_code(&warning, Severity::Warning), 1);
    assert_eq!(scan_exit_code(&warning, Severity::High), 0);
    assert_eq!(scan_exit_code(&warning, Severity::Never), 0);
    assert_eq!(scan_exit_code(&report(&[], 0), Severity::Info), 0);
}

#[test]
fn informational_findings_do_not_fail_by_default() {
    assert_eq!(scan_exit_code(&report(&[Severity::Info], 0), Severity::Warning), 0);
}
