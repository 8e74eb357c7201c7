//! What is said of a comparison, as text or as JSON.

use vstd::prelude::*;
use vstd::string::*;

use crate::compute::CiDiffData;

verus! {

/// A number in decimal digits.
pub open spec fn decimal(n: nat) -> Seq<char>
    decreases n,
{
    if n < 10 {
        seq![digit(n)]
    } else {
        decimal(n / 10).push(digit(n % 10))
    }
}

/// The digit of a number below ten.
pub open spec fn digit(n: nat) -> char {
    (n + 48) as char
}

/// Writes a number in decimal digits.
pub fn decimal_text(n: usize) -> (r: String)
    ensures
        r@ == decimal(n as nat),
    decreases n,
{
    let last = ((n % 10) as u8 + 48) as char;
    let mut r = if n < 10 {
        String::new()
    } else {
        decimal_text(n / 10)
    };
    r.push(last);
    assert(r@ =~= decimal(n as nat));
    r
}

/// The number that decimal digits stand for.
pub open spec fn number(digits: Seq<char>) -> int
    decreases digits.len(),
{
    if digits.len() == 0 {
        0
    } else {
        number(digits.drop_last()) * 10 + (digits.last() as int - 48)
    }
}

/// The digits of a number stand for that number.
pub proof fn law_digits_stand_for_their_number(n: nat)
    ensures
        number(decimal(n)) == n,
    decreases n,
{
    reveal_with_fuel(number, 2);
    if n >= 10 {
        law_digits_stand_for_their_number(n / 10);
        assert(decimal(n).drop_last() =~= decimal(n / 10));
    } else {
        assert(decimal(n).drop_last() =~= Seq::empty());
    }
}

/// How bad a change is for those who use a model.
#[derive(Debug, Clone, Copy, PartialEq, Eq, Structural)]
pub enum BreakingSeverity {
    Breaking,
    Warning,
    Info,
}

/// A change that may break those who use a model.
#[derive(Debug, Clone)]
pub struct BreakingFinding {
    pub severity: BreakingSeverity,
    /// The change, as text.
    pub change: String,
}

/// The label of a severity.
pub open spec fn severity_text(severity: BreakingSeverity) -> Seq<char> {
    match severity {
        BreakingSeverity::Breaking => "BREAKING"@,
        BreakingSeverity::Warning => "WARNING"@,
        BreakingSeverity::Info => "INFO"@,
    }
}

/// The label of a severity.
pub fn severity_label(severity: BreakingSeverity) -> (r: &'static str)
    ensures
        r@ == severity_text(severity),
{
    match severity {
        BreakingSeverity::Breaking => "BREAKING",
        BreakingSeverity::Warning => "WARNING",
        BreakingSeverity::Info => "INFO",
    }
}

/// The lines of the findings, one for each.
pub open spec fn finding_lines(findings: Seq<BreakingFinding>) -> Seq<char>
    decreases findings.len(),
{
    if findings.len() == 0 {
        Seq::empty()
    } else {
        finding_lines(findings.drop_last()) + "["@ + severity_text(findings.last().severity) + "] "@
            + findings.last().change@ + "\n"@
    }
}

/// Everything that is said of the findings: nothing where there are none.
pub open spec fn findings_section(findings: Seq<BreakingFinding>) -> Seq<char> {
    if findings.len() == 0 {
        Seq::empty()
    } else {
        "\n--- Semantic Findings ("@ + decimal(findings.len()) + " total) ---\n\n"@ + finding_lines(
            findings,
        )
    }
}

/// The headline of a text report.
pub open spec fn headline(base_ref: Seq<char>) -> Seq<char> {
    "Rocky CI Diff ("@ + base_ref + "...HEAD)\n\n"@
}

/// What a text report says where no model changed.
pub open spec fn empty_report(base_ref: Seq<char>, changed_file_count: nat) -> Seq<char> {
    if changed_file_count == 0 {
        headline(base_ref) + "No changed model files detected.\n"@
    } else {
        headline(base_ref) + decimal(changed_file_count)
            + " file(s) changed, but no model files (.sql, .rocky) were affected.\n"@
    }
}

/// A full text report: the table, the same as Markdown, and the findings.
pub open spec fn full_report(
    base_ref: Seq<char>,
    table: Seq<char>,
    markdown: Seq<char>,
    findings: Seq<BreakingFinding>,
) -> Seq<char> {
    headline(base_ref) + table + "\n--- Markdown (for PR comment) ---\n\n"@ + markdown
        + findings_section(findings)
}

/// Writes the headline.
fn headline_text(base_ref: &str) -> (r: String)
    ensures
        r@ == headline(base_ref@),
{
    let mut r = "Rocky CI Diff (".to_owned();
    r.append(base_ref);
    r.append("...HEAD)\n\n");
    r
}

/// Writes the report where no model changed.
pub fn empty_report_text(base_ref: &str, changed_file_count: usize) -> (r: String)
    ensures
        r@ == empty_report(base_ref@, changed_file_count as nat),
{
    let mut r = headline_text(base_ref);
    if changed_file_count == 0 {
        r.append("No changed model files detected.\n");
    } else {
        let count = decimal_text(changed_file_count);
        r.append(count.as_str());
        r.append(" file(s) changed, but no model files (.sql, .rocky) were affected.\n");
    }
    r
}

/// Writes a full report from the rendered table, the rendered Markdown and the
/// findings.
pub fn full_report_text(
    base_ref: &str,
    table: &str,
    markdown: &str,
    findings: &[BreakingFinding],
) -> (r: String)
    ensures
        r@ == full_report(base_ref@, table@, markdown@, findings@),
{
    let mut r = headline_text(base_ref);
    r.append(table);
    r.append("\n--- Markdown (for PR comment) ---\n\n");
    r.append(markdown);
    let ghost above = r@;
    if findings.len() > 0 {
        r.append("\n--- Semantic Findings (");
        let count = decimal_text(findings.len());
        r.append(count.as_str());
        r.append(" total) ---\n\n");
        let ghost start = r@;
        let mut i: usize = 0;
        assert(findings@.take(0) =~= Seq::empty());
        assert(r@ =~= start + finding_lines(findings@.take(0)));
        while i < findings.len()
            invariant
                i <= findings@.len(),
                r@ == start + finding_lines(findings@.take(i as int)),
            decreases findings@.len() - i,
        {
            let finding = &findings[i];
            proof {
                assert(findings@.take(i + 1).drop_last() =~= findings@.take(i as int));
                assert(findings@.take(i + 1).last() == findings@[i as int]);
            }
            r.append("[");
            r.append(severity_label(finding.severity));
            r.append("] ");
            r.append(finding.change.as_str());
            r.append("\n");
            assert(r@ =~= start + finding_lines(findings@.take(i + 1)));
            i += 1;
        }
        assert(findings@.take(findings@.len() as int) =~= findings@);
    }
    assert(r@ =~= above + findings_section(findings@));
    r
}

/// How a comparison is to be reported.
#[derive(Debug, Clone)]
pub enum ReportForm {
    /// As JSON, from `base_ref` to `head_ref`, with findings if asked for.
    Json { base_ref: String, head_ref: String, findings: bool },
    /// As this text.
    Text(String),
    /// As a full text report, with findings if asked for.
    Full { findings: bool },
}

/// Whether a comparison found no model.
pub open spec fn found_nothing<R, C, G>(data: CiDiffData<R, C, G>) -> bool {
    data.results@.len() == 0 && data.summary.total_models == 0
}

/// Decides how a comparison is reported. Findings are looked for only on
/// request, and only where a model changed; they are for information and decide
/// nothing.
pub fn run_ci_diff<R, C, G>(
    data: &CiDiffData<R, C, G>,
    base_ref: &str,
    output_json: bool,
    semantic: bool,
) -> (r: ReportForm)
    ensures
        match r {
            ReportForm::Json { base_ref: from, head_ref: to, findings } => output_json && from@
                == base_ref@ && to@ == "HEAD"@ && findings == (semantic && !found_nothing(*data)),
            ReportForm::Text(text) => !output_json && found_nothing(*data) && text@
                == empty_report(base_ref@, data.changed_file_count as nat),
            ReportForm::Full { findings } => !output_json && !found_nothing(*data) && findings
                == semantic,
        },
{
    let nothing = data.results.len() == 0 && data.summary.total_models == 0;
    if output_json {
        ReportForm::Json {
            base_ref: base_ref.to_owned(),
            head_ref: "HEAD".to_owned(),
            findings: semantic && !nothing,
        }
    } else if nothing {
        ReportForm::Text(empty_report_text(base_ref, data.changed_file_count))
    } else {
        ReportForm::Full { findings: semantic }
    }
}

/// Findings only add to a text report: without them it is the same up to where
/// they would begin.
pub proof fn law_findings_only_add(
    base_ref: Seq<char>,
    table: Seq<char>,
    markdown: Seq<char>,
    findings: Seq<BreakingFinding>,
)
    ensures
        full_report(base_ref, table, markdown, findings) == full_report(
            base_ref,
            table,
            markdown,
            Seq::empty(),
        ) + findings_section(findings),
{
    assert(full_report(base_ref, table, markdown, Seq::empty()) + findings_section(findings)
        =~= full_report(base_ref, table, markdown, findings));
}

/// A number is written with one digit up to nine, and else as its tenth part and one
/// more digit: digits only, and no zero in front.
pub proof fn law_digits_come_one_by_one(n: nat, d: nat)
    requires
        d < 10,
    ensures
        decimal(d) == seq![(48 + d) as char],
        n > 0 ==> decimal(n * 10 + d) == decimal(n).push((48 + d) as char),
        n > 0 ==> decimal(n)[0] != '0',
        forall|i: int| 0 <= i < decimal(n).len() ==> '0' <= #[trigger] decimal(n)[i] <= '9',
    decreases n,
{
    if n > 0 {
        assert((n * 10 + d) / 10 == n && (n * 10 + d) % 10 == d);
    }
    if n >= 10 {
        law_digits_come_one_by_one(n / 10, d);
    }
}

/// The digits of a text are read from the left, each worth a tenth of the one before
/// it.
pub proof fn law_digits_are_read_from_the_left(digits: Seq<char>, c: char)
    ensures
        number(Seq::empty()) == 0,
        number(digits.push(c)) == number(digits) * 10 + (c as int - 48),
{
    assert(digits.push(c).drop_last() =~= digits);
}

/// Every finding has its own line, in its place: its label in brackets, a blank and
/// the whole text of its change.
pub proof fn law_findings_have_a_line_each(
    findings: Seq<BreakingFinding>,
    finding: BreakingFinding,
)
    ensures
        finding_lines(Seq::empty()) == Seq::<char>::empty(),
        finding_lines(findings.push(finding)) == finding_lines(findings) + "["@ + (
        match finding.severity {
            BreakingSeverity::Breaking => "BREAKING"@,
            BreakingSeverity::Warning => "WARNING"@,
            BreakingSeverity::Info => "INFO"@,
        }) + "] "@ + finding.change@ + "\n"@,
{
    assert(findings.push(finding).drop_last() =~= findings);
}

/// What a text report holds: the base revision in its headline; then, where no model
/// changed, that no file did or how many did; or else the whole table, the whole
/// Markdown, and the number and the lines of the findings where there are any.
pub proof fn law_what_a_text_report_holds(
    base_ref: Seq<char>,
    changed_file_count: nat,
    table: Seq<char>,
    markdown: Seq<char>,
    findings: Seq<BreakingFinding>,
)
    ensures
        empty_report(base_ref, 0) == "Rocky CI Diff ("@ + base_ref + "...HEAD)\n\n"@
            + "No changed model files detected.\n"@,
        changed_file_count > 0 ==> empty_report(base_ref, changed_file_count) == "Rocky CI Diff ("@
            + base_ref + "...HEAD)\n\n"@ + decimal(changed_file_count)
            + " file(s) changed, but no model files (.sql, .rocky) were affected.\n"@,
        full_report(base_ref, table, markdown, Seq::empty()) == "Rocky CI Diff ("@ + base_ref
            + "...HEAD)\n\n"@ + table + "\n--- Markdown (for PR comment) ---\n\n"@ + markdown,
        findings.len() > 0 ==> full_report(base_ref, table, markdown, findings) == full_report(
            base_ref,
            table,
            markdown,
            Seq::empty(),
        ) + ("\n--- Semantic Findings ("@ + decimal(findings.len()) + " total) ---\n\n"@
            + finding_lines(findings)),
{
    let plain = "Rocky CI Diff ("@ + base_ref + "...HEAD)\n\n"@ + table
        + "\n--- Markdown (for PR comment) ---\n\n"@ + markdown;
    assert(full_report(base_ref, table, markdown, Seq::empty()) =~= plain);
    law_findings_only_add(base_ref, table, markdown, findings);
}

/// A comparison found nothing exactly if it has no result and its summary no model.
pub proof fn law_found_nothing_means_no_result<R, C, G>(data: CiDiffData<R, C, G>)
    ensures
        found_nothing(data) <==> data.results@.len() == 0 && data.summary.total_models == 0,
{
}

} // verus!
