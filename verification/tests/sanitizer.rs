use wmtext::sanitizer::{
    InputProbe, SanitizeOptions, SanitizeRequest, WriteAction, MAX_RECORDED_OPERATIONS, SANITIZE_NOTE,
    backup_conflict, sanitize_file, sanitize_text, validate_request,
};
use wmtext::scanner::ReadOutcome;

const DEFAULT: SanitizeOptions = SanitizeOptions { strip_trailing_whitespace: false };

#[test]
fn removes_floating_and_emoji_format_characters() {
    let input = "a\u{200D}b 👨\u{200D}👩 ⚖\u{FE0F}";
    let result = sanitize_text(input, 0, DEFAULT);
    assert_eq!(result.text, "ab 👨👩 ⚖");
    assert_eq!(result.stats.removed_count, 3);
}

#[test]
fn removes_multilingual_load_bearing_invisibles() {
    let input = "می\u{200C}روم क्\u{200D}ष ᠠ\u{180B}ᠡ ក\u{17B4}ខ ᄀ\u{115F}ᅡ";
    let result = sanitize_text(input, 0, DEFAULT);
    assert_eq!(result.text, "میروم क्ष ᠠᠡ កខ \u{1100}\u{1161}");
    assert_eq!(result.stats.removed_count, 5);
}

#[test]
fn removes_complete_and_incomplete_flag_tags() {
    let complete = "🏴\u{E0067}\u{E0062}\u{E0073}\u{E0063}\u{E0074}\u{E007F}";
    assert_eq!(sanitize_text(complete, 0, DEFAULT).text, "🏴");
    assert_eq!(sanitize_text("🏴\u{E0067}\u{E0062}", 0, DEFAULT).text, "🏴");
}

#[test]
fn removes_private_use_and_ambiguous_invisibles_but_preserves_spaces() {
    let input = "\u{FEFF}a\u{E000}b\u{2003}c soft\u{00AD}hyphen \u{034F}\u{200B}\u{2060}\u{2062}";
    assert_eq!(sanitize_text(input, 0, DEFAULT).text, "ab\u{2003}c softhyphen ");
}

#[test]
fn trailing_cleanup_preserves_markdown_hard_breaks() {
    let options = SanitizeOptions { strip_trailing_whitespace: true };
    let result = sanitize_text("one \ntwo  \n   \n", 0, options);
    assert_eq!(result.text, "one\ntwo  \n\n");
}

#[test]
fn operations_record_position_kind_and_codepoint() {
    let result = sanitize_text("a\nb\u{200B}c", 10, DEFAULT);
    assert_eq!(result.text, "a\nbc");
    assert_eq!(result.operations.len(), 1);
    let op = &result.operations[0];
    assert_eq!(op.kind, "format_control");
    assert_eq!(op.codepoint.as_deref(), Some("U+200B"));
    assert_eq!(op.line, 2);
    assert_eq!(op.column, 2);
    assert_eq!(op.char_offset, 3);
    assert_eq!(op.byte_offset, 13);
    assert_eq!(result.stats.input_char_count, 5);
    assert_eq!(result.stats.output_char_count, 4);
    assert_eq!(result.stats.removed_by_kind, vec![("format_control", 1)]);
}

#[test]
fn removal_counts_by_kind_are_sorted_by_label() {
    let result = sanitize_text("x\u{E000}\u{200D}\u{00AD}\u{FE0F}y", 0, DEFAULT);
    assert_eq!(result.text, "xy");
    assert_eq!(
        result.stats.removed_by_kind,
        vec![("joiner", 1), ("private_use", 1), ("soft_hyphen", 1), ("variation_selector", 1)]
    );
}

#[test]
fn operations_beyond_the_limit_are_counted() {
    let text: String = std::iter::repeat_n('\u{200B}', MAX_RECORDED_OPERATIONS + 5).collect();
    let result = sanitize_text(&text, 0, DEFAULT);
    assert_eq!(result.text, "");
    assert_eq!(result.operations.len(), MAX_RECORDED_OPERATIONS);
    assert_eq!(result.operations_truncated, 5);
    assert_eq!(result.stats.removed_count, MAX_RECORDED_OPERATIONS + 5);
}

#[test]
fn sanitizing_twice_changes_nothing_more() {
    let input = "\u{FEFF}x\u{200D}y\u{2003}z 👨\u{200D}👩";
    let once = sanitize_text(input, 0, DEFAULT).text;
    let twice = sanitize_text(&once, 0, DEFAULT);
    assert_eq!(twice.text, once);
    assert_eq!(twice.stats.removed_count, 0);
    assert!(twice.operations.is_empty());
    assert_eq!(twice.operations_truncated, 0);
    assert!(twice.stats.removed_by_kind.is_empty());
}

#[test]
fn non_ascii_spaces_survive_sanitation() {
    let input = "a\u{00A0}b\u{2009}c\u{3000}d";
    assert_eq!(sanitize_text(input, 0, DEFAULT).text, input);
}

#[test]
fn cleanup_handles_crlf_and_tabs() {
    let options = SanitizeOptions { strip_trailing_whitespace: true };
    let result = sanitize_text("a\t \r\nb  \r\nc ", 0, options);
    assert_eq!(result.text, "a\r\nb  \r\nc");
    assert_eq!(result.stats.removed_count, 3);
}

fn request(input: &str, output: Option<&str>, in_place: bool, dry_run: bool) -> SanitizeRequest {
    SanitizeRequest {
        input: input.to_owned(),
        output: output.map(|path| path.to_owned()),
        in_place,
        dry_run,
        force: false,
        max_bytes: 1024,
        options: DEFAULT,
    }
}

fn probe(bytes: &[u8]) -> InputProbe {
    InputProbe::Stat { len: bytes.len() as u64, contents: ReadOutcome::Bytes(bytes.to_vec()) }
}

#[test]
fn dry_run_cannot_be_combined() {
    let error = validate_request(&request("in.md", Some("out.md"), false, true)).unwrap_err();
    assert_eq!(error, "--dry-run cannot be combined with --output or --in-place");
    let error = validate_request(&request("in.md", None, true, true)).unwrap_err();
    assert_eq!(error, "--dry-run cannot be combined with --output or --in-place");
}

#[test]
fn exactly_one_write_mode_is_required() {
    let error = validate_request(&request("in.md", None, false, false)).unwrap_err();
    assert_eq!(error, "choose exactly one of --output or --in-place (or use --dry-run)");
    let error = validate_request(&request("in.md", Some("out.md"), true, false)).unwrap_err();
    assert_eq!(error, "choose exactly one of --output or --in-place (or use --dry-run)");
}

#[test]
fn output_equal_to_input_is_refused() {
    let error = validate_request(&request("dir/in.md", Some("dir//in.md"), false, false)).unwrap_err();
    assert_eq!(error, "use --in-place when the output path equals the input path");
    assert!(validate_request(&request("dir/in.md", Some("dir/out.md"), false, false)).is_ok());
}

#[test]
fn sanitize_requires_an_explicit_write_mode_without_reading() {
    let result = sanitize_file(&request("in.md", None, false, false), InputProbe::NotAFile);
    assert_eq!(result.err().unwrap(), "choose exactly one of --output or --in-place (or use --dry-run)");
}

#[test]
fn input_errors_are_reported() {
    let dry = request("in.md", None, false, true);
    let message = sanitize_file(&dry, InputProbe::MetadataFailed("denied".to_owned())).err().unwrap();
    assert_eq!(message, "could not read input metadata: denied");
    assert_eq!(sanitize_file(&dry, InputProbe::NotAFile).err().unwrap(), "input is not a regular file");
    let large = InputProbe::Stat { len: 2048, contents: ReadOutcome::NotRead };
    assert_eq!(sanitize_file(&dry, large).err().unwrap(), "input exceeds --max-bytes (2048 > 1024)");
    let failed = InputProbe::Stat { len: 3, contents: ReadOutcome::Failed("io".to_owned()) };
    assert_eq!(sanitize_file(&dry, failed).err().unwrap(), "could not read input: io");
    assert_eq!(
        sanitize_file(&dry, probe(b"a\0b")).err().unwrap(),
        "input looks binary (NUL byte in initial sample)"
    );
    assert_eq!(
        sanitize_file(&dry, probe(b"ab\xffc")).err().unwrap(),
        "input is not valid UTF-8 at byte 2"
    );
}

#[test]
fn sanitize_dry_run_plans_no_write() {
    let plan = sanitize_file(&request("in.md", None, false, true), probe("a\u{200D}b 👨\u{200D}👩\n".as_bytes()))
        .ok()
        .unwrap();
    assert!(matches!(plan.action, WriteAction::Nothing));
    assert_eq!(plan.text, "ab 👨👩\n");
    assert!(plan.report.changed);
    assert!(plan.report.dry_run);
    assert_eq!(plan.report.stats.removed_count, 2);
    assert_eq!(plan.report.operations.len(), 2);
    assert_eq!(plan.report.operations[0].codepoint.as_deref(), Some("U+200D"));
    assert_eq!(plan.report.output_path, None);
    assert_eq!(plan.report.backup_path, None);
    assert_eq!(plan.report.note, SANITIZE_NOTE);
    assert_eq!(plan.report.schema_version, 1);
    assert_eq!(plan.report.input_bytes, "a\u{200D}b 👨\u{200D}👩\n".len());
    assert_eq!(plan.report.output_bytes, "ab 👨👩\n".len());
}

#[test]
fn sanitize_output_plans_a_new_file() {
    let mut req = request("in.md", Some("out.md"), false, false);
    req.force = true;
    let plan = sanitize_file(&req, probe("ok\u{200B}\n".as_bytes())).ok().unwrap();
    match plan.action {
        WriteAction::WriteOutput { path, force } => {
            assert_eq!(path, "out.md");
            assert!(force);
        }
        _ => panic!("expected a write of the output"),
    }
    assert_eq!(plan.text, "ok\n");
    assert_eq!(plan.report.output_path.as_deref(), Some("out.md"));
    assert_eq!(plan.report.backup_path, None);
}

#[test]
fn sanitize_in_place_plans_a_backup_only_when_changed() {
    let req = request("doc.md", None, true, false);
    let plan = sanitize_file(&req, probe("x\u{00AD}y".as_bytes())).ok().unwrap();
    match plan.action {
        WriteAction::InPlace { input, backup } => {
            assert_eq!(input, "doc.md");
            assert_eq!(backup, "doc.md.bak");
        }
        _ => panic!("expected an in-place write"),
    }
    assert_eq!(plan.report.backup_path.as_deref(), Some("doc.md.bak"));
    assert_eq!(plan.report.output_path.as_deref(), Some("doc.md"));

    let unchanged = sanitize_file(&req, probe(b"plain text\n")).ok().unwrap();
    assert!(matches!(unchanged.action, WriteAction::Nothing));
    assert!(!unchanged.report.changed);
    assert_eq!(unchanged.report.backup_path, None);
    assert_eq!(unchanged.report.output_path.as_deref(), Some("doc.md"));
}

#[test]
fn an_existing_backup_is_never_overwritten() {
    assert_eq!(
        backup_conflict("doc.md.bak", true).as_deref(),
        Some("refusing to overwrite existing backup: doc.md.bak")
    );
    assert_eq!(backup_conflict("doc.md.bak", false), None);
}

#[test]
fn removal_offsets_may_reach_the_largest_offset() {
    let result = sanitize_text("abc\u{200B}", usize::MAX - 3, DEFAULT);
    assert_eq!(result.text, "abc");
    assert_eq!(result.operations[0].byte_offset, usize::MAX);
    let kept = sanitize_text("x\u{200B}yyyy", usize::MAX - 1, DEFAULT);
    assert_eq!(kept.text, "xyyyy");
    assert_eq!(kept.operations[0].byte_offset, usize::MAX);
}
