//! Human-readable renderings of scan and sanitation reports.

use vstd::prelude::*;

use crate::model::{
    FileReport, FileReportView, FileStatus, Finding, FindingView, ScanError, ScanErrorView, ScanReport, Summary,
    error_views, file_views, finding_views,
};
use crate::sanitizer::{OperationView, SanitizeOperation, SanitizeReport, operation_views};
use crate::text::{decimal, is_unicode_whitespace, owned, push_char, push_decimal, push_str, trim_end, trim_end_owned};

verus! {

fn push_usize(s: &mut String, n: usize)
    ensures
        final(s)@ == old(s)@ + decimal(n as nat),
{
    push_decimal(s, n as u64);
}

/// ` VALUE` for a present code point, nothing otherwise.
pub open spec fn codepoint_suffix(codepoint: Option<Seq<char>>) -> Seq<char> {
    match codepoint {
        Some(c) => seq![' '] + c,
        None => Seq::empty(),
    }
}

fn push_codepoint_suffix(s: &mut String, codepoint: &Option<String>)
    ensures
        final(s)@ == old(s)@ + codepoint_suffix(crate::model::opt_view(*codepoint)),
{
    match codepoint {
        Some(c) => {
            push_char(s, ' ');
            push_str(s, c.as_str());
        },
        None => {
            assert(old(s)@ + Seq::<char>::empty() =~= old(s)@);
        },
    }
}

// ---------------------------------------------------------------------------
// Scan reports.
// ---------------------------------------------------------------------------

/// The two lines of one finding of the file at `path`.
pub open spec fn finding_lines(path: Seq<char>, f: FindingView) -> Seq<char> {
    "  ["@ + f.severity.label()@ + "] "@ + path + ":"@ + decimal(f.line as nat) + ":"@ + decimal(f.column as nat)
        + " "@ + f.rule_id@ + codepoint_suffix(f.codepoint) + " – "@ + f.message + "\n"@ + "         context: "@
        + f.context + "\n"@
}

/// The lines of `findings[0..k]` of the file at `path`.
pub open spec fn findings_lines(path: Seq<char>, findings: Seq<FindingView>, k: int) -> Seq<char>
    decreases k,
{
    if k <= 0 {
        Seq::empty()
    } else {
        findings_lines(path, findings, k - 1) + finding_lines(path, findings[k - 1])
    }
}

/// The lines of one file of a scan report.
pub open spec fn file_lines(file: FileReportView) -> Seq<char> {
    if file.status == FileStatus::NoSupportedSurfaceSignalDetected {
        "OK   "@ + file.path + " – no supported surface signal detected\n"@
    } else if file.status == FileStatus::SurfaceFindingsPresent {
        "FIND "@ + file.path + " – "@ + decimal(file.findings.len()) + " finding(s)\n"@ + findings_lines(
            file.path,
            file.findings,
            file.findings.len() as int,
        ) + if file.findings_truncated > 0 {
            "  ... "@ + decimal(file.findings_truncated as nat) + " additional finding(s) truncated\n"@
        } else {
            Seq::empty()
        }
    } else {
        "SKIP "@ + file.path + " – "@ + match file.note {
            Some(note) => note,
            None => "unsupported input"@,
        } + "\n"@
    }
}

/// The lines of `files[0..k]`.
pub open spec fn files_lines(files: Seq<FileReportView>, k: int) -> Seq<char>
    decreases k,
{
    if k <= 0 {
        Seq::empty()
    } else {
        files_lines(files, k - 1) + file_lines(files[k - 1])
    }
}

/// The lines of `errors[0..k]`.
pub open spec fn errors_lines(errors: Seq<ScanErrorView>, k: int) -> Seq<char>
    decreases k,
{
    if k <= 0 {
        Seq::empty()
    } else {
        errors_lines(errors, k - 1) + "ERROR "@ + errors[k - 1].path + " – "@ + errors[k - 1].message + "\n"@
    }
}

/// The summary line of a scan report.
pub open spec fn summary_line(s: Summary) -> Seq<char> {
    "Summary: "@ + decimal(s.files_considered as nat) + " considered, "@ + decimal(s.files_scanned as nat)
        + " scanned, "@ + decimal(s.files_skipped as nat) + " skipped, "@ + decimal(s.files_with_findings as nat)
        + " with findings; "@ + decimal(s.findings_total as nat) + " retained findings ("@ + decimal(
        s.findings_info as nat,
    ) + " info, "@ + decimal(s.findings_warning as nat) + " warning, "@ + decimal(s.findings_high as nat)
        + " high)\n"@
}

/// The conclusion of a scan report: that no signal was detected, or that the
/// findings are anomalies, not provider attribution.
pub open spec fn conclusion_line(findings_total: usize, no_errors: bool) -> Seq<char> {
    if findings_total == 0 && no_errors {
        "Conclusion: no supported surface signal was detected. Proprietary statistical watermark detection remains indeterminate.\n"@
    } else {
        "Conclusion: findings are observable text anomalies, not provider attribution.\n"@
    }
}

/// The human-readable rendering of a scan report.
pub open spec fn human_text(report: ScanReport) -> Seq<char> {
    let files = file_views(report.files@);
    let errors = error_views(report.errors@);
    trim_end(
        "wmtext "@ + report.tool.version@ + " – read-only text signal scan\n"@ + "Statistical watermark: "@
            + report.statistical_watermark_status.status@ + " ("@ + report.statistical_watermark_status.reason@
            + ")\n"@ + "\n"@ + files_lines(files, files.len() as int) + errors_lines(errors, errors.len() as int)
            + "\n"@ + summary_line(report.summary) + conclusion_line(report.summary.findings_total, errors.len() == 0),
    )
}

proof fn lemma_trim_after_sentence(head: Seq<char>, sentence: Seq<char>)
    requires
        sentence.len() > 0,
        sentence.last() == '.',
    ensures
        trim_end(head + sentence + seq!['\n']) == head + sentence,
{
    let a = head + sentence;
    let x = a + seq!['\n'];
    assert(x.drop_last() =~= a);
    assert(x.last() == '\n');
    assert(is_unicode_whitespace(x.last()));
    assert(trim_end(x) == trim_end(x.drop_last()));
    assert(a.last() == '.');
    assert(!is_unicode_whitespace(a.last()));
    assert(trim_end(a) == a);
    assert(head + sentence + seq!['\n'] == x);
}

proof fn lemma_conclusion_sentence(findings_total: usize, no_errors: bool)
    ensures
        conclusion_line(findings_total, no_errors) == conclusion_sentence(findings_total, no_errors) + seq!['\n'],
        conclusion_sentence(findings_total, no_errors).len() > 0,
        conclusion_sentence(findings_total, no_errors).last() == '.',
{
    reveal_strlit("Conclusion: no supported surface signal was detected. Proprietary statistical watermark detection remains indeterminate.");
    reveal_strlit("Conclusion: no supported surface signal was detected. Proprietary statistical watermark detection remains indeterminate.\n");
    reveal_strlit("Conclusion: findings are observable text anomalies, not provider attribution.");
    reveal_strlit("Conclusion: findings are observable text anomalies, not provider attribution.\n");
    assert(conclusion_line(findings_total, no_errors) =~= conclusion_sentence(findings_total, no_errors) + seq!['\n']);
}

/// The last sentence of a scan report.
pub open spec fn conclusion_sentence(findings_total: usize, no_errors: bool) -> Seq<char> {
    if findings_total == 0 && no_errors {
        "Conclusion: no supported surface signal was detected. Proprietary statistical watermark detection remains indeterminate."@
    } else {
        "Conclusion: findings are observable text anomalies, not provider attribution."@
    }
}

/// The opening lines of a scan report, before the files.
pub open spec fn report_banner(report: ScanReport) -> Seq<char> {
    "wmtext "@ + report.tool.version@ + " – read-only text signal scan\n"@ + "Statistical watermark: "@
        + report.statistical_watermark_status.status@ + " ("@ + report.statistical_watermark_status.reason@ + ")\n"@
        + "\n"@
}

proof fn lemma_human_text_shape(report: ScanReport)
    ensures
        human_text(report) == report_banner(report) + files_lines(
            file_views(report.files@),
            report.files@.len() as int,
        ) + errors_lines(error_views(report.errors@), report.errors@.len() as int) + "\n"@ + summary_line(
            report.summary,
        ) + conclusion_sentence(report.summary.findings_total, report.errors@.len() == 0),
{
    let files = file_views(report.files@);
    let errors = error_views(report.errors@);
    let head = report_banner(report) + files_lines(files, files.len() as int) + errors_lines(errors, errors.len() as int)
        + "\n"@;
    let line = summary_line(report.summary);
    let no_errors = errors.len() == 0;
    let c = conclusion_sentence(report.summary.findings_total, no_errors);
    lemma_conclusion_sentence(report.summary.findings_total, no_errors);
    lemma_trim_after_sentence(head + line, c);
    assert("wmtext "@ + report.tool.version@ + " – read-only text signal scan\n"@ + "Statistical watermark: "@
        + report.statistical_watermark_status.status@ + " ("@ + report.statistical_watermark_status.reason@
        + ")\n"@ + "\n"@ + files_lines(files, files.len() as int) + errors_lines(errors, errors.len() as int)
        + "\n"@ + summary_line(report.summary) + conclusion_line(report.summary.findings_total, no_errors)
        =~= head + line + c + seq!['\n']);
}

/// The rendered scan report ends with its summary line, which gives, in this
/// order, the files considered, scanned, skipped and with findings, then the
/// retained findings in all and by severity; and then with the conclusion.
pub proof fn lemma_human_report_ends_with_summary(report: ScanReport)
    ensures
        exists|head: Seq<char>|
            human_text(report) == head + ("Summary: "@ + decimal(report.summary.files_considered as nat)
                + " considered, "@ + decimal(report.summary.files_scanned as nat) + " scanned, "@ + decimal(
                report.summary.files_skipped as nat,
            ) + " skipped, "@ + decimal(report.summary.files_with_findings as nat) + " with findings; "@ + decimal(
                report.summary.findings_total as nat,
            ) + " retained findings ("@ + decimal(report.summary.findings_info as nat) + " info, "@ + decimal(
                report.summary.findings_warning as nat,
            ) + " warning, "@ + decimal(report.summary.findings_high as nat) + " high)\n"@) + conclusion_sentence(
                report.summary.findings_total,
                report.errors@.len() == 0,
            ),
{
    lemma_human_text_shape(report);
    let head = report_banner(report) + files_lines(file_views(report.files@), report.files@.len() as int)
        + errors_lines(error_views(report.errors@), report.errors@.len() as int) + "\n"@;
    assert(human_text(report) == head + summary_line(report.summary) + conclusion_sentence(
        report.summary.findings_total,
        report.errors@.len() == 0,
    ));
}

proof fn lemma_files_lines_split(files: Seq<FileReportView>, i: int, n: int)
    requires
        0 <= i < n <= files.len(),
    ensures
        exists|post: Seq<char>| files_lines(files, n) == files_lines(files, i) + file_lines(files[i]) + post,
    decreases n,
{
    if n == i + 1 {
        assert(files_lines(files, n) =~= files_lines(files, i) + file_lines(files[i]) + Seq::<char>::empty());
    } else {
        lemma_files_lines_split(files, i, n - 1);
        let post = choose|post: Seq<char>|
            files_lines(files, n - 1) == files_lines(files, i) + file_lines(files[i]) + post;
        assert(files_lines(files, n) =~= files_lines(files, i) + file_lines(files[i]) + (post + file_lines(
            files[n - 1],
        )));
    }
}

/// The first line that a scan report gives a file: `OK` for a file without
/// findings, `FIND` with the number of retained findings, `SKIP` with the
/// reason it was skipped.
pub open spec fn file_header(file: FileReportView) -> Seq<char> {
    if file.status == FileStatus::NoSupportedSurfaceSignalDetected {
        "OK   "@ + file.path + " – no supported surface signal detected\n"@
    } else if file.status == FileStatus::SurfaceFindingsPresent {
        "FIND "@ + file.path + " – "@ + decimal(file.findings.len()) + " finding(s)\n"@
    } else {
        "SKIP "@ + file.path + " – "@ + match file.note {
            Some(note) => note,
            None => "unsupported input"@,
        } + "\n"@
    }
}

proof fn lemma_regroup(
    banner: Seq<char>,
    before: Seq<char>,
    header: Seq<char>,
    rest: Seq<char>,
    post: Seq<char>,
    e: Seq<char>,
    n: Seq<char>,
    sl: Seq<char>,
    c: Seq<char>,
)
    ensures
        banner + (before + (header + rest) + post) + e + n + sl + c == banner + before + header + (rest + post + (e
            + n + sl + c)),
{
    assert(banner + (before + (header + rest) + post) + e + n + sl + c =~= banner + before + header + (rest + post
        + (e + n + sl + c)));
}

proof fn lemma_file_lines_start(f: FileReportView)
    ensures
        exists|rest: Seq<char>| file_lines(f) == file_header(f) + rest,
{
    let rest = if f.status == FileStatus::SurfaceFindingsPresent {
        findings_lines(f.path, f.findings, f.findings.len() as int) + if f.findings_truncated > 0 {
            "  ... "@ + decimal(f.findings_truncated as nat) + " additional finding(s) truncated\n"@
        } else {
            Seq::empty()
        }
    } else {
        Seq::empty()
    };
    assert(file_lines(f) =~= file_header(f) + rest);
}

proof fn lemma_file_header_of(report: ScanReport, i: int)
    requires
        0 <= i < report.files@.len(),
    ensures
        file_header(file_views(report.files@)[i]) == (if report.files@[i].status
            == FileStatus::NoSupportedSurfaceSignalDetected {
            "OK   "@ + report.files@[i].path@ + " – no supported surface signal detected\n"@
        } else if report.files@[i].status == FileStatus::SurfaceFindingsPresent {
            "FIND "@ + report.files@[i].path@ + " – "@ + decimal(report.files@[i].findings@.len()) + " finding(s)\n"@
        } else {
            "SKIP "@ + report.files@[i].path@ + " – "@ + match report.files@[i].note {
                Some(note) => note@,
                None => "unsupported input"@,
            } + "\n"@
        }),
{
    let f = file_views(report.files@)[i];
    assert(f == report.files@[i]@);
    assert(f.findings.len() == report.files@[i].findings@.len());
}

/// Every file of a scan report has its line in the rendered report, in the
/// order of the report: `OK` for a file without findings, `FIND` with the
/// number of retained findings, `SKIP` with the reason it was skipped. The text
/// is the banner, the lines of the files before it, its line, then the rest.
pub proof fn lemma_human_report_lists_every_file(report: ScanReport, i: int)
    requires
        0 <= i < report.files@.len(),
    ensures
        exists|post: Seq<char>|
            human_text(report) == report_banner(report) + files_lines(file_views(report.files@), i) + file_header(
                file_views(report.files@)[i],
            ) + post,
        file_header(file_views(report.files@)[i]) == (if report.files@[i].status
            == FileStatus::NoSupportedSurfaceSignalDetected {
            "OK   "@ + report.files@[i].path@ + " – no supported surface signal detected\n"@
        } else if report.files@[i].status == FileStatus::SurfaceFindingsPresent {
            "FIND "@ + report.files@[i].path@ + " – "@ + decimal(report.files@[i].findings@.len()) + " finding(s)\n"@
        } else {
            "SKIP "@ + report.files@[i].path@ + " – "@ + match report.files@[i].note {
                Some(note) => note@,
                None => "unsupported input"@,
            } + "\n"@
        }),
{
    let files = file_views(report.files@);
    let n = report.files@.len() as int;
    lemma_human_text_shape(report);
    lemma_files_lines_split(files, i, n);
    let post = choose|post: Seq<char>| files_lines(files, n) == files_lines(files, i) + file_lines(files[i]) + post;
    lemma_file_lines_start(files[i]);
    let rest = choose|rest: Seq<char>| file_lines(files[i]) == file_header(files[i]) + rest;
    lemma_file_header_of(report, i);
    let e = errors_lines(error_views(report.errors@), report.errors@.len() as int);
    let sl = summary_line(report.summary);
    let c = conclusion_sentence(report.summary.findings_total, report.errors@.len() == 0);
    lemma_regroup(report_banner(report), files_lines(files, i), file_header(files[i]), rest, post, e, "\n"@, sl, c);
    assert(human_text(report) == report_banner(report) + files_lines(files, i) + file_header(files[i]) + (rest + post
        + (e + "\n"@ + sl + c)));
}

fn push_finding_lines(out: &mut String, path: &String, finding: &Finding)
    ensures
        final(out)@ == old(out)@ + finding_lines(path@, finding@),
{
    let ghost start = out@;
    push_str(out, "  [");
    push_str(out, finding.severity.label());
    push_str(out, "] ");
    push_str(out, path.as_str());
    push_str(out, ":");
    push_usize(out, finding.line);
    push_str(out, ":");
    push_usize(out, finding.column);
    push_str(out, " ");
    push_str(out, finding.rule_id);
    push_codepoint_suffix(out, &finding.codepoint);
    push_str(out, " – ");
    push_str(out, finding.message.as_str());
    push_str(out, "\n");
    push_str(out, "         context: ");
    push_str(out, finding.context.as_str());
    push_str(out, "\n");
    assert(out@ =~= start + finding_lines(path@, finding@));
}

fn push_file_lines(out: &mut String, file: &FileReport)
    ensures
        final(out)@ == old(out)@ + file_lines(file@),
{
    let ghost start = out@;
    match file.status {
        FileStatus::NoSupportedSurfaceSignalDetected => {
            push_str(out, "OK   ");
            push_str(out, file.path.as_str());
            push_str(out, " – no supported surface signal detected\n");
            assert(out@ =~= start + file_lines(file@));
        },
        FileStatus::SurfaceFindingsPresent => {
            push_str(out, "FIND ");
            push_str(out, file.path.as_str());
            push_str(out, " – ");
            push_usize(out, file.findings.len());
            push_str(out, " finding(s)\n");
            let ghost head = out@;
            let ghost fv = finding_views(file.findings@);
            let mut j: usize = 0;
            assert(head + findings_lines(file.path@, fv, 0) =~= head);
            while j < file.findings.len()
                invariant
                    j <= file.findings.len(),
                    fv == finding_views(file.findings@),
                    out@ == head + findings_lines(file.path@, fv, j as int),
                decreases file.findings.len() - j,
            {
                push_finding_lines(out, &file.path, &file.findings[j]);
                proof {
                    assert(fv[j as int] == file.findings@[j as int]@);
                    assert(out@ =~= head + findings_lines(file.path@, fv, j + 1));
                }
                j += 1;
            }
            let ghost body = out@;
            if file.findings_truncated > 0 {
                push_str(out, "  ... ");
                push_usize(out, file.findings_truncated);
                push_str(out, " additional finding(s) truncated\n");
            }
            assert(out@ =~= start + file_lines(file@));
        },
        _ => {
            push_str(out, "SKIP ");
            push_str(out, file.path.as_str());
            push_str(out, " – ");
            match &file.note {
                Some(note) => push_str(out, note.as_str()),
                None => push_str(out, "unsupported input"),
            }
            push_str(out, "\n");
            assert(out@ =~= start + file_lines(file@));
        },
    }
}

/// Renders a scan report for people.
#[verifier::spinoff_prover]
#[verifier::rlimit(40)]
pub fn human(report: &ScanReport) -> (text: String)
    ensures
        text@ == human_text(*report),
{
    let ghost files = file_views(report.files@);
    let ghost errors = error_views(report.errors@);
    let mut out = String::new();
    push_str(&mut out, "wmtext ");
    push_str(&mut out, report.tool.version);
    push_str(&mut out, " – read-only text signal scan\n");
    push_str(&mut out, "Statistical watermark: ");
    push_str(&mut out, report.statistical_watermark_status.status);
    push_str(&mut out, " (");
    push_str(&mut out, report.statistical_watermark_status.reason);
    push_str(&mut out, ")\n");
    push_str(&mut out, "\n");
    let ghost head = out@;
    let mut i: usize = 0;
    assert(head + files_lines(files, 0) =~= head);
    while i < report.files.len()
        invariant
            i <= report.files.len(),
            files == file_views(report.files@),
            out@ == head + files_lines(files, i as int),
        decreases report.files.len() - i,
    {
        push_file_lines(&mut out, &report.files[i]);
        proof {
            assert(files[i as int] == report.files@[i as int]@);
            assert(out@ =~= head + files_lines(files, i + 1));
        }
        i += 1;
    }
    let ghost mid = out@;
    let mut e: usize = 0;
    assert(mid + errors_lines(errors, 0) =~= mid);
    while e < report.errors.len()
        invariant
            e <= report.errors.len(),
            errors == error_views(report.errors@),
            out@ == mid + errors_lines(errors, e as int),
        decreases report.errors.len() - e,
    {
        let error = &report.errors[e];
        push_str(&mut out, "ERROR ");
        push_str(&mut out, error.path.as_str());
        push_str(&mut out, " – ");
        push_str(&mut out, error.message.as_str());
        push_str(&mut out, "\n");
        proof {
            assert(errors[e as int] == report.errors@[e as int]@);
            assert(out@ =~= mid + errors_lines(errors, e + 1));
        }
        e += 1;
    }
    let ghost tail = out@;
    let summary = &report.summary;
    push_str(&mut out, "\n");
    push_str(&mut out, "Summary: ");
    push_usize(&mut out, summary.files_considered);
    push_str(&mut out, " considered, ");
    push_usize(&mut out, summary.files_scanned);
    push_str(&mut out, " scanned, ");
    push_usize(&mut out, summary.files_skipped);
    push_str(&mut out, " skipped, ");
    push_usize(&mut out, summary.files_with_findings);
    push_str(&mut out, " with findings; ");
    push_usize(&mut out, summary.findings_total);
    push_str(&mut out, " retained findings (");
    push_usize(&mut out, summary.findings_info);
    push_str(&mut out, " info, ");
    push_usize(&mut out, summary.findings_warning);
    push_str(&mut out, " warning, ");
    push_usize(&mut out, summary.findings_high);
    push_str(&mut out, " high)\n");
    if summary.findings_total == 0 && report.errors.len() == 0 {
        push_str(
            &mut out,
            "Conclusion: no supported surface signal was detected. Proprietary statistical watermark detection remains indeterminate.\n",
        );
    } else {
        push_str(&mut out, "Conclusion: findings are observable text anomalies, not provider attribution.\n");
    }
    proof {
        assert(out@ =~= "wmtext "@ + report.tool.version@ + " – read-only text signal scan\n"@
            + "Statistical watermark: "@ + report.statistical_watermark_status.status@ + " ("@
            + report.statistical_watermark_status.reason@ + ")\n"@ + "\n"@ + files_lines(files, files.len() as int)
            + errors_lines(errors, errors.len() as int) + "\n"@ + summary_line(report.summary) + conclusion_line(
            report.summary.findings_total,
            errors.len() == 0,
        ));
    }
    trim_end_owned(out.as_str())
}


// ---------------------------------------------------------------------------
// Sanitation reports.
// ---------------------------------------------------------------------------

/// The line of one removal operation on the file at `path`.
pub open spec fn operation_line(path: Seq<char>, op: OperationView) -> Seq<char> {
    "  Remove "@ + path + ":"@ + decimal(op.line as nat) + ":"@ + decimal(op.column as nat) + " "@ + op.kind@
        + codepoint_suffix(op.codepoint) + " – "@ + op.reason@ + "\n"@
}

/// The lines of `ops[0..k]`.
pub open spec fn operations_lines(path: Seq<char>, ops: Seq<OperationView>, k: int) -> Seq<char>
    decreases k,
{
    if k <= 0 {
        Seq::empty()
    } else {
        operations_lines(path, ops, k - 1) + operation_line(path, ops[k - 1])
    }
}

/// `true` or `false`.
pub open spec fn bool_text(b: bool) -> Seq<char> {
    if b {
        "true"@
    } else {
        "false"@
    }
}

/// The line that says where the result went, if anywhere.
pub open spec fn mode_line(report: SanitizeReport) -> Seq<char> {
    if report.dry_run {
        "Mode: dry-run (nothing written)\n"@
    } else {
        match report.output_path {
            Some(path) => "Output: "@ + path@ + "\n"@,
            None => Seq::empty(),
        }
    }
}

/// The line that names the backup, if one was made.
pub open spec fn backup_line(report: SanitizeReport) -> Seq<char> {
    match report.backup_path {
        Some(path) => "Backup: "@ + path@ + "\n"@,
        None => Seq::empty(),
    }
}

/// The line that counts the operations left out of the report, if any were.
pub open spec fn truncation_line(truncated: usize) -> Seq<char> {
    if truncated > 0 {
        "  ... "@ + decimal(truncated as nat) + " additional operation(s) truncated\n"@
    } else {
        Seq::empty()
    }
}

/// The human-readable rendering of a sanitation report.
pub open spec fn sanitize_text_report(report: SanitizeReport) -> Seq<char> {
    let ops = operation_views(report.operations@);
    trim_end(
        "wmtext "@ + report.version@ + " – deterministic text sanitation\n"@ + "Input: "@ + report.input_path@ + "\n"@
            + mode_line(report) + backup_line(report) + "Changed: "@ + bool_text(report.changed) + "\n"@
            + "Removed: "@ + decimal(report.stats.removed_count as nat) + "\n"@
            + operations_lines(report.input_path@, ops, ops.len() as int) + truncation_line(report.operations_truncated)
            + "Note: "@ + report.note@ + "\n"@,
    )
}

fn push_operation_line(out: &mut String, path: &String, op: &SanitizeOperation)
    ensures
        final(out)@ == old(out)@ + operation_line(path@, op@),
{
    let ghost start = out@;
    push_str(out, "  Remove ");
    push_str(out, path.as_str());
    push_str(out, ":");
    push_usize(out, op.line);
    push_str(out, ":");
    push_usize(out, op.column);
    push_str(out, " ");
    push_str(out, op.kind);
    push_codepoint_suffix(out, &op.codepoint);
    push_str(out, " – ");
    push_str(out, op.reason);
    push_str(out, "\n");
    assert(out@ =~= start + operation_line(path@, op@));
}

/// Renders a sanitation report for people.
#[verifier::spinoff_prover]
pub fn sanitize_human(report: &SanitizeReport) -> (text: String)
    ensures
        text@ == sanitize_text_report(*report),
{
    let ghost ops = operation_views(report.operations@);
    let mut out = String::new();
    push_str(&mut out, "wmtext ");
    push_str(&mut out, report.version);
    push_str(&mut out, " – deterministic text sanitation\n");
    push_str(&mut out, "Input: ");
    push_str(&mut out, report.input_path.as_str());
    push_str(&mut out, "\n");
    let ghost a = out@;
    if report.dry_run {
        push_str(&mut out, "Mode: dry-run (nothing written)\n");
    } else {
        match &report.output_path {
            Some(path) => {
                push_str(&mut out, "Output: ");
                push_str(&mut out, path.as_str());
                push_str(&mut out, "\n");
            },
            None => {},
        }
    }
    let ghost b = out@;
    match &report.backup_path {
        Some(path) => {
            push_str(&mut out, "Backup: ");
            push_str(&mut out, path.as_str());
            push_str(&mut out, "\n");
        },
        None => {},
    }
    let ghost c = out@;
    push_str(&mut out, "Changed: ");
    if report.changed {
        push_str(&mut out, "true");
    } else {
        push_str(&mut out, "false");
    }
    push_str(&mut out, "\n");
    push_str(&mut out, "Removed: ");
    push_usize(&mut out, report.stats.removed_count);
    push_str(&mut out, "\n");
    let ghost head = out@;
    let mut j: usize = 0;
    assert(head + operations_lines(report.input_path@, ops, 0) =~= head);
    while j < report.operations.len()
        invariant
            j <= report.operations.len(),
            ops == operation_views(report.operations@),
            out@ == head + operations_lines(report.input_path@, ops, j as int),
        decreases report.operations.len() - j,
    {
        push_operation_line(&mut out, &report.input_path, &report.operations[j]);
        proof {
            assert(ops[j as int] == report.operations@[j as int]@);
            assert(out@ =~= head + operations_lines(report.input_path@, ops, j + 1));
        }
        j += 1;
    }
    let ghost body = out@;
    if report.operations_truncated > 0 {
        push_str(&mut out, "  ... ");
        push_usize(&mut out, report.operations_truncated);
        push_str(&mut out, " additional operation(s) truncated\n");
    }
    let ghost tail = out@;
    push_str(&mut out, "Note: ");
    push_str(&mut out, report.note);
    push_str(&mut out, "\n");
    assert(out@ =~= "wmtext "@ + report.version@ + " – deterministic text sanitation\n"@ + "Input: "@
        + report.input_path@ + "\n"@ + mode_line(*report) + backup_line(*report) + "Changed: "@ + bool_text(
        report.changed,
    ) + "\n"@ + "Removed: "@ + decimal(report.stats.removed_count as nat) + "\n"@ + operations_lines(
        report.input_path@,
        ops,
        ops.len() as int,
    ) + truncation_line(report.operations_truncated) + "Note: "@ + report.note@ + "\n"@) by {
        assert(b =~= a + mode_line(*report));
        assert(c =~= b + backup_line(*report));
        assert(tail =~= body + truncation_line(report.operations_truncated));
    }
    trim_end_owned(out.as_str())
}

/// The text of the built-in rules and their interpretation limits.
pub open spec fn rules_text() -> Seq<char> {
    "Built-in rules:\nunicode.format_control             unexpected invisible format controls\nunicode.control_character          unexpected C0/C1 controls\nunicode.joiner                     context-aware ZWJ/ZWNJ review\nunicode.bidi_control                bidi embeddings, overrides, and isolates\nunicode.tag_character               invisible Unicode tag payload characters\nunicode.variation_selector_channel  unusual variation-selector use or density\nunicode.non_ascii_spaces            aggregate non-ASCII whitespace distribution\ntext.trailing_whitespace            aggregate trailing-space/tab channel\nunicode.mixed_script_token          Latin/Cyrillic/Greek mixed-token heuristic\nunicode.combining_mark_run          unusually long combining-mark run\nunicode.private_use                 private-use codepoints requiring review\nunicode.non_nfc                     informational NFC normalization check\n\nSanitize removes every recognized invisible/format and private-use character. Non-ASCII spaces are preserved.\n\nEvery rule reports an observable surface property. None identifies an AI provider."@
}

/// The built-in rules and their interpretation limits.
pub fn rules() -> (text: &'static str)
    ensures
        text@ == rules_text(),
{
    "Built-in rules:\nunicode.format_control             unexpected invisible format controls\nunicode.control_character          unexpected C0/C1 controls\nunicode.joiner                     context-aware ZWJ/ZWNJ review\nunicode.bidi_control                bidi embeddings, overrides, and isolates\nunicode.tag_character               invisible Unicode tag payload characters\nunicode.variation_selector_channel  unusual variation-selector use or density\nunicode.non_ascii_spaces            aggregate non-ASCII whitespace distribution\ntext.trailing_whitespace            aggregate trailing-space/tab channel\nunicode.mixed_script_token          Latin/Cyrillic/Greek mixed-token heuristic\nunicode.combining_mark_run          unusually long combining-mark run\nunicode.private_use                 private-use codepoints requiring review\nunicode.non_nfc                     informational NFC normalization check\n\nSanitize removes every recognized invisible/format and private-use character. Non-ASCII spaces are preserved.\n\nEvery rule reports an observable surface property. None identifies an AI provider."
}

} // verus!
