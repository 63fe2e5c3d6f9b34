use wmtext::model::{FileStatus, Severity};
use wmtext::scanner::{
    Candidates, FileProbe, PathInput, ReadOutcome, ScanOptions, WalkEntry, collect_candidates, has_allowed_extension,
    is_default_excluded_directory, looks_binary, push_candidate, scan_file, scan_paths, to_ascii_lowercase,
};

#[test]
fn nul_marks_binary_content() {
    assert!(looks_binary(b"hello\0world"));
    assert!(!looks_binary(b"hello\nworld"));
}

#[test]
fn generated_dependency_directories_are_excluded() {
    assert!(is_default_excluded_directory("target"));
    assert!(is_default_excluded_directory("node_modules"));
    assert!(!is_default_excluded_directory("src"));
}

#[test]
fn nul_after_the_sample_is_not_binary() {
    let mut bytes = vec![b'a'; 8192];
    bytes.push(0);
    assert!(!looks_binary(&bytes));
    bytes[8191] = 0;
    assert!(looks_binary(&bytes));
}

fn options(extensions: &[&str]) -> ScanOptions {
    ScanOptions {
        include_hidden: false,
        respect_ignore_files: true,
        max_bytes: 100,
        max_findings_per_file: 200,
        extensions: extensions.iter().map(|value| value.to_string()).collect(),
    }
}

#[test]
fn extensions_are_matched_case_insensitively() {
    let extensions = vec!["md".to_owned(), "txt".to_owned()];
    assert!(has_allowed_extension("docs/README.MD", &extensions));
    assert!(has_allowed_extension("notes.txt", &extensions));
    assert!(!has_allowed_extension("Makefile", &extensions));
    assert!(!has_allowed_extension("archive.tar.gz", &extensions));
    assert!(!has_allowed_extension(".md", &extensions));
    assert_eq!(to_ascii_lowercase("ÀbC.Md"), "Àbc.md");
}

#[test]
fn candidates_are_pushed_once() {
    let mut candidates = Vec::new();
    push_candidate("a.md".to_owned(), &mut candidates);
    push_candidate("b.md".to_owned(), &mut candidates);
    push_candidate("a.md".to_owned(), &mut candidates);
    push_candidate("docs//c.md".to_owned(), &mut candidates);
    push_candidate("docs/c.md".to_owned(), &mut candidates);
    assert_eq!(candidates, vec!["a.md".to_owned(), "b.md".to_owned(), "docs//c.md".to_owned()]);
}

#[test]
fn candidates_are_sorted_unique_and_filtered() {
    let inputs = vec![
        PathInput::File("zeta.bin".to_owned()),
        PathInput::Directory {
            root: "docs".to_owned(),
            entries: vec![
                WalkEntry::File("docs/b.md".to_owned()),
                WalkEntry::File("docs/image.png".to_owned()),
                WalkEntry::Error("permission denied".to_owned()),
                WalkEntry::File("docs/a.MD".to_owned()),
            ],
        },
        PathInput::Missing("gone.md".to_owned()),
        PathInput::File("docs/b.md".to_owned()),
        PathInput::File("docs/./b.md".to_owned()),
    ];
    let selected = collect_candidates(&inputs, &options(&["md"]));
    assert_eq!(selected.paths, vec!["docs/a.MD".to_owned(), "docs/b.md".to_owned(), "zeta.bin".to_owned()]);
    assert_eq!(selected.errors.len(), 2);
    assert_eq!(selected.errors[0].path, "docs");
    assert_eq!(selected.errors[0].message, "permission denied");
    assert_eq!(selected.errors[1].path, "gone.md");
    assert_eq!(selected.errors[1].message, "Path does not exist or is not a regular file/directory");
}

fn bytes(contents: &[u8]) -> FileProbe {
    FileProbe::Stat { size: contents.len() as u64, contents: ReadOutcome::Bytes(contents.to_vec()) }
}

#[test]
fn scan_file_reports_each_outcome() {
    let opts = options(&["md"]);
    let too_large = scan_file("big.md", &FileProbe::Stat { size: 101, contents: ReadOutcome::NotRead }, &opts)
        .ok()
        .unwrap();
    assert_eq!(too_large.status, FileStatus::SkippedTooLarge);
    assert_eq!(too_large.note.as_deref(), Some("File exceeds --max-bytes (100)"));
    assert_eq!(too_large.size_bytes, 101);

    let binary = scan_file("bin.md", &bytes(b"a\0b"), &opts).ok().unwrap();
    assert_eq!(binary.status, FileStatus::SkippedBinary);
    assert_eq!(binary.note.as_deref(), Some("NUL byte detected in the initial sample"));

    let non_utf8 = scan_file("latin1.md", &bytes(b"caf\xe9"), &opts).ok().unwrap();
    assert_eq!(non_utf8.status, FileStatus::SkippedNonUtf8);
    assert_eq!(non_utf8.note.as_deref(), Some("Invalid UTF-8 at byte 3"));

    let error = scan_file("x.md", &FileProbe::MetadataFailed("denied".to_owned()), &opts).err().unwrap();
    assert_eq!(error.path, "x.md");
    assert_eq!(error.message, "Could not read metadata: denied");

    let failed = FileProbe::Stat { size: 3, contents: ReadOutcome::Failed("io".to_owned()) };
    let error = scan_file("y.md", &failed, &opts).err().unwrap();
    assert_eq!(error.message, "Could not read file: io");

    let clean = scan_file("ok.md", &bytes(b"plain\n"), &opts).ok().unwrap();
    assert_eq!(clean.status, FileStatus::NoSupportedSurfaceSignalDetected);
    assert_eq!(clean.encoding, Some("utf-8"));
    assert_eq!(clean.metrics.unwrap().unicode_scalar_count, 6);

    let bom = scan_file("bom.md", &bytes(b"\xef\xbb\xbfhi\xe2\x80\x8b!"), &opts).ok().unwrap();
    assert_eq!(bom.encoding, Some("utf-8-bom"));
    assert_eq!(bom.status, FileStatus::SurfaceFindingsPresent);
    assert!(bom.findings.iter().any(|finding| finding.rule_id == "unicode.format_control"
        && finding.codepoint.as_deref() == Some("U+200B")
        && finding.byte_offset == 5));
}

#[test]
fn scan_paths_reports_and_summarizes() {
    let inputs = vec![
        PathInput::File("b.md".to_owned()),
        PathInput::File("a.md".to_owned()),
        PathInput::File("c.md".to_owned()),
        PathInput::Missing("gone.md".to_owned()),
    ];
    let opts = options(&["md"]);
    let selected = collect_candidates(&inputs, &opts);
    assert_eq!(selected.paths, vec!["a.md".to_owned(), "b.md".to_owned(), "c.md".to_owned()]);
    let probes = vec![bytes("zero\u{200B}width".as_bytes()), bytes(b"fine\n"), bytes(b"\0")];
    let report = scan_paths(selected, &probes, &opts);
    assert_eq!(report.schema_version, 1);
    assert_eq!(report.tool.name, "wmtext");
    assert_eq!(report.statistical_watermark_status.status, "indeterminate");
    assert_eq!(report.files.len(), 3);
    assert_eq!(report.files[0].path, "a.md");
    assert_eq!(report.files[0].status, FileStatus::SurfaceFindingsPresent);
    assert_eq!(report.files[1].status, FileStatus::NoSupportedSurfaceSignalDetected);
    assert_eq!(report.files[2].status, FileStatus::SkippedBinary);
    assert_eq!(report.errors.len(), 1);
    assert_eq!(report.errors[0].path, "gone.md");
    let summary = &report.summary;
    assert_eq!(summary.files_considered, 3);
    assert_eq!(summary.files_scanned, 2);
    assert_eq!(summary.files_skipped, 1);
    assert_eq!(summary.files_with_findings, 1);
    assert_eq!(summary.findings_total, report.files[0].findings.len());
    assert_eq!(summary.findings_high, 1);
    assert!(report.has_severity_at_least(Severity::High));
    assert!(report.has_severity_at_least(Severity::Warning));
    assert!(!report.has_severity_at_least(Severity::Never));
}

#[test]
fn empty_candidates_give_an_empty_report() {
    let report = scan_paths(Candidates { paths: Vec::new(), errors: Vec::new() }, &Vec::new(), &options(&[]));
    assert!(report.files.is_empty());
    assert!(report.errors.is_empty());
    assert_eq!(report.summary.files_considered, 0);
    assert_eq!(report.summary.findings_total, 0);
}
