//! The data model of scan reports.

use vstd::prelude::*;

verus! {

/// How serious a finding is; `Never` is a threshold that no finding reaches.
#[derive(Clone, Copy, Debug, PartialEq, Eq, PartialOrd, Ord, Hash, Structural)]
pub enum Severity {
    Info,
    Warning,
    High,
    Never,
}

impl Severity {
    /// The short label used in human-readable output.
    #[verifier::allow_in_spec]
    pub fn label(self) -> &'static str
        returns
            match self {
                Severity::Info => "INFO",
                Severity::Warning => "WARN",
                Severity::High => "HIGH",
                Severity::Never => "NEVER",
            },
    {
        match self {
            Severity::Info => "INFO",
            Severity::Warning => "WARN",
            Severity::High => "HIGH",
            Severity::Never => "NEVER",
        }
    }

    /// The position of the severity in the order `Info < Warning < High < Never`.
    #[verifier::allow_in_spec]
    pub fn rank(self) -> u8
        returns
            match self {
                Severity::Info => 0u8,
                Severity::Warning => 1u8,
                Severity::High => 2u8,
                Severity::Never => 3u8,
            },
    {
        match self {
            Severity::Info => 0,
            Severity::Warning => 1,
            Severity::High => 2,
            Severity::Never => 3,
        }
    }

    /// `self >= threshold` in the order `Info < Warning < High < Never`.
    #[verifier::allow_in_spec]
    pub fn at_least(self, threshold: Severity) -> bool
        returns
            self.rank() >= threshold.rank(),
    {
        self.rank() >= threshold.rank()
    }
}

/// The version reported by the tool.
pub const TOOL_VERSION: &'static str = "0.1.0";

/// The name and version of the tool.
#[derive(Debug)]
pub struct ToolInfo {
    pub name: &'static str,
    pub version: &'static str,
}

/// The status of statistical (token-sampling) watermark detection.
#[derive(Debug)]
pub struct StatisticalStatus {
    pub status: &'static str,
    pub reason: &'static str,
}

/// Aggregate counts of a scan.
#[derive(Debug)]
pub struct Summary {
    pub files_considered: usize,
    pub files_scanned: usize,
    pub files_with_findings: usize,
    pub files_skipped: usize,
    pub findings_total: usize,
    pub findings_info: usize,
    pub findings_warning: usize,
    pub findings_high: usize,
    pub findings_truncated: usize,
}

/// What happened to one file.
#[derive(Clone, Copy, Debug, PartialEq, Eq, Structural)]
pub enum FileStatus {
    NoSupportedSurfaceSignalDetected,
    SurfaceFindingsPresent,
    SkippedTooLarge,
    SkippedBinary,
    SkippedNonUtf8,
}

/// Counts describing the text of one file.
#[derive(Debug, Clone, Copy, PartialEq, Eq, Structural)]
pub struct TextMetrics {
    pub unicode_scalar_count: usize,
    pub line_count: usize,
    pub ascii_space_count: usize,
    pub non_ascii_space_count: usize,
    pub format_control_count: usize,
    pub variation_selector_count: usize,
    pub unicode_tag_count: usize,
    pub mixed_script_token_count: usize,
    pub trailing_whitespace_line_count: usize,
    pub trailing_space_count: usize,
    pub trailing_tab_count: usize,
    pub padded_blank_line_count: usize,
    pub nfc_normalized: bool,
}

/// One observable surface anomaly.
#[derive(Debug)]
pub struct Finding {
    pub rule_id: &'static str,
    pub category: &'static str,
    pub severity: Severity,
    pub message: String,
    pub codepoint: Option<String>,
    pub unicode_name: Option<String>,
    pub byte_offset: usize,
    pub char_offset: usize,
    pub line: usize,
    pub column: usize,
    pub context: String,
    pub interpretation: &'static str,
}

/// The mathematical content of a [`Finding`].
pub struct FindingView {
    pub rule_id: &'static str,
    pub category: &'static str,
    pub severity: Severity,
    pub message: Seq<char>,
    pub codepoint: Option<Seq<char>>,
    pub unicode_name: Option<Seq<char>>,
    pub byte_offset: int,
    pub char_offset: int,
    pub line: int,
    pub column: int,
    pub context: Seq<char>,
    pub interpretation: &'static str,
}

/// The view of an optional string.
pub open spec fn opt_view(s: Option<String>) -> Option<Seq<char>> {
    match s {
        Some(v) => Some(v@),
        None => None,
    }
}

impl View for Finding {
    type V = FindingView;

    open spec fn view(&self) -> FindingView {
        FindingView {
            rule_id: self.rule_id,
            category: self.category,
            severity: self.severity,
            message: self.message@,
            codepoint: opt_view(self.codepoint),
            unicode_name: opt_view(self.unicode_name),
            byte_offset: self.byte_offset as int,
            char_offset: self.char_offset as int,
            line: self.line as int,
            column: self.column as int,
            context: self.context@,
            interpretation: self.interpretation,
        }
    }
}

/// The views of a list of findings.
pub open spec fn finding_views(findings: Seq<Finding>) -> Seq<FindingView> {
    findings.map_values(|f: Finding| f@)
}

/// The report for one file.
#[derive(Debug)]
pub struct FileReport {
    pub path: String,
    pub size_bytes: u64,
    pub status: FileStatus,
    pub encoding: Option<&'static str>,
    pub metrics: Option<TextMetrics>,
    pub findings: Vec<Finding>,
    pub findings_truncated: usize,
    pub note: Option<String>,
}

/// A path that could not be scanned.
#[derive(Debug)]
pub struct ScanError {
    pub path: String,
    pub message: String,
}

/// The complete result of a scan.
#[derive(Debug)]
pub struct ScanReport {
    pub schema_version: u32,
    pub tool: ToolInfo,
    pub statistical_watermark_status: StatisticalStatus,
    pub summary: Summary,
    pub files: Vec<FileReport>,
    pub errors: Vec<ScanError>,
}

/// Some finding of file `i` of `files` reaches `threshold`.
pub open spec fn file_reaches(files: Seq<FileReport>, i: int, threshold: Severity) -> bool {
    exists|j: int| 0 <= j < files[i].findings@.len() && (#[trigger] files[i].findings@[j]).severity.at_least(threshold)
}

/// Some finding of some file reaches `threshold`.
pub open spec fn report_reaches(files: Seq<FileReport>, threshold: Severity) -> bool {
    exists|i: int| 0 <= i < files.len() && #[trigger] file_reaches(files, i, threshold)
}

impl ScanReport {
    /// Whether any retained finding has `threshold` or a higher severity.
    pub fn has_severity_at_least(&self, threshold: Severity) -> (found: bool)
        ensures
            found == report_reaches(self.files@, threshold),
    {
        let mut i: usize = 0;
        while i < self.files.len()
            invariant
                i <= self.files.len(),
                forall|k: int| 0 <= k < i ==> !#[trigger] file_reaches(self.files@, k, threshold),
            decreases self.files.len() - i,
        {
            let file = &self.files[i];
            let mut j: usize = 0;
            while j < file.findings.len()
                invariant
                    j <= file.findings.len(),
                    i < self.files.len(),
                    *file == self.files@[i as int],
                    forall|m: int| 0 <= m < j ==> !(#[trigger] file.findings@[m]).severity.at_least(threshold),
                decreases file.findings.len() - j,
            {
                if file.findings[j].severity.at_least(threshold) {
                    assert(self.files@[i as int].findings@[j as int].severity.at_least(threshold));
                    assert(file_reaches(self.files@, i as int, threshold));
                    return true;
                }
                j += 1;
            }
            i += 1;
        }
        false
    }
}


/// The mathematical content of a [`FileReport`].
pub struct FileReportView {
    pub path: Seq<char>,
    pub size_bytes: u64,
    pub status: FileStatus,
    pub encoding: Option<&'static str>,
    pub metrics: Option<TextMetrics>,
    pub findings: Seq<FindingView>,
    pub findings_truncated: usize,
    pub note: Option<Seq<char>>,
}

impl View for FileReport {
    type V = FileReportView;

    open spec fn view(&self) -> FileReportView {
        FileReportView {
            path: self.path@,
            size_bytes: self.size_bytes,
            status: self.status,
            encoding: self.encoding,
            metrics: self.metrics,
            findings: finding_views(self.findings@),
            findings_truncated: self.findings_truncated,
            note: opt_view(self.note),
        }
    }
}

/// The mathematical content of a [`ScanError`].
pub struct ScanErrorView {
    pub path: Seq<char>,
    pub message: Seq<char>,
}

impl View for ScanError {
    type V = ScanErrorView;

    open spec fn view(&self) -> ScanErrorView {
        ScanErrorView { path: self.path@, message: self.message@ }
    }
}

/// The views of a list of file reports.
pub open spec fn file_views(files: Seq<FileReport>) -> Seq<FileReportView> {
    files.map_values(|f: FileReport| f@)
}

/// The views of a list of errors.
pub open spec fn error_views(errors: Seq<ScanError>) -> Seq<ScanErrorView> {
    errors.map_values(|e: ScanError| e@)
}

/// `a + b`, or `usize::MAX` when that does not fit.
pub open spec fn sat_add(a: usize, b: int) -> usize {
    if a + b > usize::MAX {
        usize::MAX
    } else {
        (a + b) as usize
    }
}

/// The number of findings of `severity` among `findings[0..k]`.
pub open spec fn severity_count(findings: Seq<FindingView>, severity: Severity, k: int) -> nat
    decreases k,
{
    if k <= 0 {
        0
    } else {
        severity_count(findings, severity, k - 1) + if findings[k - 1].severity == severity { 1nat } else { 0nat }
    }
}

/// A file that was analyzed rather than skipped.
pub open spec fn is_scanned_status(status: FileStatus) -> bool {
    status == FileStatus::NoSupportedSurfaceSignalDetected || status == FileStatus::SurfaceFindingsPresent
}

/// The summary counts of `files[0..k]`, added on top of `base` with saturation.
pub open spec fn summary_after(files: Seq<FileReportView>, k: int, base: Summary) -> Summary
    decreases k,
{
    if k <= 0 {
        base
    } else {
        let prior = summary_after(files, k - 1, base);
        let file = files[k - 1];
        let n = file.findings.len() as int;
        Summary {
            files_considered: prior.files_considered,
            files_scanned: if is_scanned_status(file.status) { sat_add(prior.files_scanned, 1) } else { prior.files_scanned },
            files_skipped: if is_scanned_status(file.status) { prior.files_skipped } else { sat_add(prior.files_skipped, 1) },
            files_with_findings: if n > 0 { sat_add(prior.files_with_findings, 1) } else { prior.files_with_findings },
            findings_truncated: sat_add(prior.findings_truncated, file.findings_truncated as int),
            findings_total: sat_add(prior.findings_total, n),
            findings_info: sat_add(prior.findings_info, severity_count(file.findings, Severity::Info, n) as int),
            findings_warning: sat_add(prior.findings_warning, severity_count(file.findings, Severity::Warning, n) as int),
            findings_high: sat_add(prior.findings_high, severity_count(file.findings, Severity::High, n) as int),
        }
    }
}

/// A threshold that some finding reaches is reached for every lower threshold too.
pub proof fn lemma_reaches_lower_threshold(files: Seq<FileReport>, high: Severity, low: Severity)
    requires
        low.rank() <= high.rank(),
        report_reaches(files, high),
    ensures
        report_reaches(files, low),
{
    let i = choose|i: int| 0 <= i < files.len() && #[trigger] file_reaches(files, i, high);
    let j = choose|j: int| 0 <= j < files[i].findings@.len() && (#[trigger] files[i].findings@[j]).severity.at_least(high);
    assert(files[i].findings@[j].severity.at_least(low));
    assert(file_reaches(files, i, low));
}

/// The summary counts each file once, either as scanned or as skipped; it
/// counts no more files with findings than files; and it keeps the number of
/// files considered.
pub proof fn lemma_summary_counts_each_file(files: Seq<FileReportView>, base: Summary, k: int)
    requires
        0 <= k <= files.len(),
        base.files_scanned + base.files_skipped + k <= usize::MAX,
    ensures
        summary_after(files, k, base).files_scanned + summary_after(files, k, base).files_skipped
            == base.files_scanned + base.files_skipped + k,
        summary_after(files, k, base).files_with_findings <= base.files_with_findings + k,
        summary_after(files, k, base).files_considered == base.files_considered,
    decreases k,
{
    if k > 0 {
        lemma_summary_counts_each_file(files, base, k - 1);
    }
}

/// The number of findings of `severity` in the files `files[0..k]`.
pub open spec fn findings_of_severity(files: Seq<FileReportView>, k: int, severity: Severity) -> nat
    decreases k,
{
    if k <= 0 {
        0
    } else {
        findings_of_severity(files, k - 1, severity) + severity_count(
            files[k - 1].findings,
            severity,
            files[k - 1].findings.len() as int,
        )
    }
}

/// The number of findings in the files `files[0..k]`.
pub open spec fn findings_in(files: Seq<FileReportView>, k: int) -> nat
    decreases k,
{
    if k <= 0 {
        0
    } else {
        findings_in(files, k - 1) + files[k - 1].findings.len()
    }
}

proof fn lemma_severity_count_bound(findings: Seq<FindingView>, severity: Severity, k: int)
    requires
        0 <= k,
    ensures
        severity_count(findings, severity, k) <= k,
    decreases k,
{
    if k > 0 {
        lemma_severity_count_bound(findings, severity, k - 1);
    }
}

proof fn lemma_findings_of_severity_bound(files: Seq<FileReportView>, k: int, severity: Severity)
    requires
        0 <= k <= files.len(),
    ensures
        findings_of_severity(files, k, severity) <= findings_in(files, k),
    decreases k,
{
    if k > 0 {
        lemma_findings_of_severity_bound(files, k - 1, severity);
        lemma_severity_count_bound(files[k - 1].findings, severity, files[k - 1].findings.len() as int);
    }
}

/// When no count overflows, the summary counts every finding once in the
/// total and once in the field of its own severity: info findings in
/// `findings_info`, warnings in `findings_warning`, high findings in
/// `findings_high`.
pub proof fn lemma_summary_counts_findings_by_severity(files: Seq<FileReportView>, base: Summary, k: int)
    requires
        0 <= k <= files.len(),
        base.findings_total + findings_in(files, k) <= usize::MAX,
        base.findings_info + findings_in(files, k) <= usize::MAX,
        base.findings_warning + findings_in(files, k) <= usize::MAX,
        base.findings_high + findings_in(files, k) <= usize::MAX,
    ensures
        summary_after(files, k, base).findings_total == base.findings_total + findings_in(files, k),
        summary_after(files, k, base).findings_info == base.findings_info + findings_of_severity(files, k, Severity::Info),
        summary_after(files, k, base).findings_warning == base.findings_warning + findings_of_severity(
            files,
            k,
            Severity::Warning,
        ),
        summary_after(files, k, base).findings_high == base.findings_high + findings_of_severity(files, k, Severity::High),
    decreases k,
{
    if k > 0 {
        lemma_summary_counts_findings_by_severity(files, base, k - 1);
        lemma_findings_of_severity_bound(files, k, Severity::Info);
        lemma_findings_of_severity_bound(files, k, Severity::Warning);
        lemma_findings_of_severity_bound(files, k, Severity::High);
    }
}

/// The number of files among `files[0..k]` that were analyzed rather than skipped.
pub open spec fn analyzed_files(files: Seq<FileReportView>, k: int) -> nat
    decreases k,
{
    if k <= 0 {
        0
    } else {
        analyzed_files(files, k - 1) + if files[k - 1].status == FileStatus::NoSupportedSurfaceSignalDetected
            || files[k - 1].status == FileStatus::SurfaceFindingsPresent {
            1nat
        } else {
            0nat
        }
    }
}

/// The number of files among `files[0..k]` with at least one retained finding.
pub open spec fn files_with_retained_findings(files: Seq<FileReportView>, k: int) -> nat
    decreases k,
{
    if k <= 0 {
        0
    } else {
        files_with_retained_findings(files, k - 1) + if files[k - 1].findings.len() > 0 { 1nat } else { 0nat }
    }
}

/// The number of findings truncated in the files `files[0..k]`.
pub open spec fn truncated_in(files: Seq<FileReportView>, k: int) -> nat
    decreases k,
{
    if k <= 0 {
        0
    } else {
        truncated_in(files, k - 1) + files[k - 1].findings_truncated as nat
    }
}

proof fn lemma_file_counts_bound(files: Seq<FileReportView>, k: int)
    requires
        0 <= k <= files.len(),
    ensures
        analyzed_files(files, k) <= k,
        files_with_retained_findings(files, k) <= k,
    decreases k,
{
    if k > 0 {
        lemma_file_counts_bound(files, k - 1);
    }
}

/// When no count overflows, the summary counts the analyzed files as scanned,
/// the others as skipped, the files with retained findings, and the truncated
/// findings of every file.
pub proof fn lemma_summary_counts_files(files: Seq<FileReportView>, base: Summary, k: int)
    requires
        0 <= k <= files.len(),
        base.files_scanned + k <= usize::MAX,
        base.files_skipped + k <= usize::MAX,
        base.files_with_findings + k <= usize::MAX,
        base.findings_truncated + truncated_in(files, k) <= usize::MAX,
    ensures
        summary_after(files, k, base).files_scanned == base.files_scanned + analyzed_files(files, k),
        summary_after(files, k, base).files_skipped == base.files_skipped + (k - analyzed_files(files, k)),
        summary_after(files, k, base).files_with_findings == base.files_with_findings + files_with_retained_findings(
            files,
            k,
        ),
        summary_after(files, k, base).findings_truncated == base.findings_truncated + truncated_in(files, k),
        summary_after(files, k, base).files_considered == base.files_considered,
    decreases k,
{
    if k > 0 {
        lemma_summary_counts_files(files, base, k - 1);
        lemma_file_counts_bound(files, k);
    }
}

/// Adds the counts of every file of the report to its summary; each count
/// saturates at `usize::MAX`.
pub fn summarize(report: &mut ScanReport)
    ensures
        final(report).files@ == old(report).files@,
        final(report).errors@ == old(report).errors@,
        final(report).schema_version == old(report).schema_version,
        final(report).tool == old(report).tool,
        final(report).statistical_watermark_status == old(report).statistical_watermark_status,
        final(report).summary == summary_after(file_views(old(report).files@), old(report).files@.len() as int, old(report).summary),
{
    let ghost files = file_views(report.files@);
    let ghost base = report.summary;
    let mut i: usize = 0;
    while i < report.files.len()
        invariant
            files == file_views(report.files@),
            files.len() == report.files@.len(),
            i <= report.files.len(),
            report.summary == summary_after(files, i as int, base),
            report.files@ == old(report).files@,
            report.errors@ == old(report).errors@,
            report.schema_version == old(report).schema_version,
            report.tool == old(report).tool,
            report.statistical_watermark_status == old(report).statistical_watermark_status,
            base == old(report).summary,
        decreases report.files.len() - i,
    {
        let n = report.files[i].findings.len();
        let status = report.files[i].status;
        let truncated = report.files[i].findings_truncated;
        let mut info: usize = 0;
        let mut warning: usize = 0;
        let mut high: usize = 0;
        let mut j: usize = 0;
        let ghost fv = files[i as int].findings;
        while j < n
            invariant
                i < report.files.len(),
                files == file_views(report.files@),
                fv == files[i as int].findings,
                n == report.files@[i as int].findings@.len(),
                fv.len() == n,
                j <= n,
                info == severity_count(fv, Severity::Info, j as int),
                warning == severity_count(fv, Severity::Warning, j as int),
                high == severity_count(fv, Severity::High, j as int),
                info + warning + high <= j,
            decreases n - j,
        {
            let severity = report.files[i].findings[j].severity;
            assert(fv[j as int].severity == severity);
            match severity {
                Severity::Info => info += 1,
                Severity::Warning => warning += 1,
                Severity::High => high += 1,
                Severity::Never => {},
            }
            j += 1;
        }
        let scanned = match status {
            FileStatus::NoSupportedSurfaceSignalDetected | FileStatus::SurfaceFindingsPresent => true,
            _ => false,
        };
        if scanned {
            report.summary.files_scanned = report.summary.files_scanned.saturating_add(1);
        } else {
            report.summary.files_skipped = report.summary.files_skipped.saturating_add(1);
        }
        if n > 0 {
            report.summary.files_with_findings = report.summary.files_with_findings.saturating_add(1);
        }
        report.summary.findings_truncated = report.summary.findings_truncated.saturating_add(truncated);
        report.summary.findings_total = report.summary.findings_total.saturating_add(n);
        report.summary.findings_info = report.summary.findings_info.saturating_add(info);
        report.summary.findings_warning = report.summary.findings_warning.saturating_add(warning);
        report.summary.findings_high = report.summary.findings_high.saturating_add(high);
        i += 1;
    }
}

} // verus!
