//! The default format, for reading in a terminal.
use vstd::prelude::*;
use super::{summary_line, summary_text};
use crate::problem::{Problem, Report, description_of, subject_of};
use crate::text::{append, chars_of};

verus! {

/// The lines of the problems, indented.
pub open spec fn problem_lines(ps: Seq<Problem>) -> Seq<char>
    decreases ps.len(),
{
    if ps.len() == 0 {
        Seq::empty()
    } else {
        problem_lines(ps.drop_last()) + "  "@ + subject_of(ps.last()@) + ": "@ + description_of(
            ps.last()@,
        ) + "\n"@
    }
}

/// The file, the problems, and the summary of a report.
pub open spec fn plain_report(r: Report) -> Seq<char> {
    r.file@ + "\n"@ + problem_lines(r.problems@) + "  "@ + summary_text(r.summary) + "\n"@
}

/// The reports one after another.
pub open spec fn plain_reports(rs: Seq<Report>) -> Seq<char>
    decreases rs.len(),
{
    if rs.len() == 0 {
        Seq::empty()
    } else {
        plain_reports(rs.drop_last()) + plain_report(rs.last())
    }
}

/// The text of the reports one after another is the text of the first ones
/// followed by the text of the others.
pub proof fn lemma_plain_reports_concat(a: Seq<Report>, b: Seq<Report>)
    ensures
        plain_reports(a + b) == plain_reports(a) + plain_reports(b),
    decreases b.len(),
{
    if b.len() == 0 {
        assert(a + b =~= a);
        assert(plain_reports(a) + plain_reports(b) =~= plain_reports(a));
    } else {
        assert((a + b).drop_last() =~= a + b.drop_last());
        assert((a + b).last() == b.last());
        lemma_plain_reports_concat(a, b.drop_last());
        assert(plain_reports(a + b) =~= plain_reports(a) + plain_reports(b));
    }
}

/// Renders the report: the file, a problem per line, and the summary.
pub fn render_report(report: &Report) -> (r: Vec<char>)
    ensures
        r@ == plain_report(*report),
{
    let mut t = chars_of(report.file.as_str());
    append(&mut t, &chars_of("\n"));
    let ghost start = t@;
    let mut i: usize = 0;
    while i < report.problems.len()
        invariant
            i <= report.problems.len(),
            t@ == start + problem_lines(report.problems@.take(i as int)),
        decreases report.problems.len() - i,
    {
        assert(report.problems@.take(i + 1).drop_last() =~= report.problems@.take(i as int));
        let p: &Problem = &report.problems[i];
        append(&mut t, &chars_of("  "));
        append(&mut t, &chars_of(p.to_string().as_str()));
        append(&mut t, &chars_of("\n"));
        i += 1;
    }
    assert(report.problems@.take(report.problems.len() as int) =~= report.problems@);
    append(&mut t, &chars_of("  "));
    append(&mut t, &summary_line(&report.summary));
    append(&mut t, &chars_of("\n"));
    t
}

/// Renders the reports one after another.
pub fn render(reports: &[Report]) -> (r: Vec<char>)
    ensures
        r@ == plain_reports(reports@),
{
    let mut t: Vec<char> = Vec::new();
    let mut i: usize = 0;
    while i < reports.len()
        invariant
            i <= reports.len(),
            t@ == plain_reports(reports@.take(i as int)),
        decreases reports.len() - i,
    {
        assert(reports@.take(i + 1).drop_last() =~= reports@.take(i as int));
        append(&mut t, &render_report(&reports[i]));
        i += 1;
    }
    assert(reports@.take(reports.len() as int) =~= reports@);
    t
}

} // verus!
