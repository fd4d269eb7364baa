//! The Markdown format, for reports and notes: a table of the problems per file.
use vstd::prelude::*;
use super::{summary_line, summary_text};
use crate::problem::{
    Problem,
    ProblemView,
    Report,
    cells_chars,
    cells_text,
    description_of,
    kind_of,
    location_text,
    range_location_text,
    subject_of,
};
use crate::text::{append, chars_of, string_of};

verus! {

/// What one character becomes in a table cell: `|` is escaped and a line break
/// becomes a space.
pub open spec fn escape_char(c: char) -> Seq<char> {
    if c == '|' {
        seq!['\\', '|']
    } else if c == '\n' {
        seq![' ']
    } else {
        seq![c]
    }
}

/// The text with the characters that break a table replaced, so that it stays
/// in its table cell.
pub open spec fn escape_text(s: Seq<char>) -> Seq<char>
    decreases s.len(),
{
    if s.len() == 0 {
        Seq::empty()
    } else {
        escape_text(s.drop_last()) + escape_char(s.last())
    }
}

/// The escaped text has no line break, and every `|` of it has a backslash
/// before it.
pub proof fn lemma_escaped_cell(s: Seq<char>)
    ensures
        forall|i: int| 0 <= i < escape_text(s).len() ==> #[trigger] escape_text(s)[i] != '\n',
        forall|i: int|
            0 <= i < escape_text(s).len() && #[trigger] escape_text(s)[i] == '|' ==> i > 0 && escape_text(
                s,
            )[i - 1] == '\\',
    decreases s.len(),
{
    if s.len() > 0 {
        lemma_escaped_cell(s.drop_last());
        let prev = escape_text(s.drop_last());
        let t = escape_text(s);
        assert forall|i: int| 0 <= i < t.len() implies #[trigger] t[i] != '\n' by {
            if i < prev.len() {
                assert(t[i] == prev[i]);
            }
        }
        assert forall|i: int| 0 <= i < t.len() && #[trigger] t[i] == '|' implies i > 0 && t[i - 1] == '\\' by {
            if i < prev.len() {
                assert(t[i] == prev[i] && t[i - 1] == prev[i - 1]);
            }
        }
    }
}

/// The source and the target of the problem; the subject and nothing for a
/// problem without a reference.
pub open spec fn endpoints_of(p: ProblemView) -> (Seq<char>, Seq<char>) {
    match p {
        ProblemView::IdMismatch { source, target } => (location_text(source), location_text(target)),
        ProblemView::MultiStudentRange { source, target } => (
            location_text(source),
            range_location_text(target),
        ),
        _ => (subject_of(p), Seq::empty()),
    }
}

/// The source, the target, and the description of the problem in the table. A
/// duplicated id lists its cells as the source, and its description leaves
/// them out.
pub open spec fn columns_of(p: ProblemView) -> (Seq<char>, Seq<char>, Seq<char>) {
    match p {
        ProblemView::DuplicatedId { sheet, id, cells } => (
            cells_text(sheet, cells),
            Seq::empty(),
            "duplicated student id "@ + id,
        ),
        _ => (endpoints_of(p).0, endpoints_of(p).1, description_of(p)),
    }
}

/// The row of the table: the kind, the source, the target, and the description.
pub open spec fn problem_row(p: ProblemView) -> Seq<char> {
    "| "@ + kind_of(p) + " | "@ + escape_text(columns_of(p).0) + " | "@ + escape_text(columns_of(p).1)
        + " | "@ + escape_text(columns_of(p).2) + " |\n"@
}

pub open spec fn problem_rows(ps: Seq<Problem>) -> Seq<char>
    decreases ps.len(),
{
    if ps.len() == 0 {
        Seq::empty()
    } else {
        problem_rows(ps.drop_last()) + problem_row(ps.last()@)
    }
}

/// The heading of the file, the table of the problems (if any), and the summary.
pub open spec fn markdown_report(r: Report) -> Seq<char> {
    "## "@ + r.file@ + "\n\n"@ + if r.problems.len() == 0 {
        Seq::empty()
    } else {
        "| Kind | Source | Target | Description |\n|---|---|---|---|\n"@ + problem_rows(r.problems@)
            + "\n"@
    } + summary_text(r.summary) + "\n"@
}

/// The reports separated by blank lines.
pub open spec fn markdown_reports(rs: Seq<Report>) -> Seq<char>
    decreases rs.len(),
{
    if rs.len() == 0 {
        Seq::empty()
    } else if rs.len() == 1 {
        markdown_report(rs[0])
    } else {
        markdown_reports(rs.drop_last()) + "\n"@ + markdown_report(rs.last())
    }
}

/// The text of two nonempty lists of reports one after another is the text of
/// the first, a blank line, and the text of the second.
pub proof fn lemma_markdown_reports_concat(a: Seq<Report>, b: Seq<Report>)
    requires
        a.len() > 0,
        b.len() > 0,
    ensures
        markdown_reports(a + b) == markdown_reports(a) + "\n"@ + markdown_reports(b),
    decreases b.len(),
{
    assert((a + b).drop_last() =~= a + b.drop_last());
    assert((a + b).last() == b.last());
    if b.len() == 1 {
        assert(b.drop_last() =~= Seq::<Report>::empty());
        assert(a + b.drop_last() =~= a);
        assert(b[0] == b.last());
    } else {
        lemma_markdown_reports_concat(a, b.drop_last());
        assert(markdown_reports(a + b) =~= markdown_reports(a) + "\n"@ + markdown_reports(b));
    }
}

/// Escapes the characters that break a table: `|` and line breaks.
pub fn escape(text: &str) -> (r: String)
    ensures
        r@ == escape_text(text@),
{
    string_of(&escape_chars(text))
}

fn escape_chars(text: &str) -> (r: Vec<char>)
    ensures
        r@ == escape_text(text@),
{
    let s = chars_of(text);
    let mut t: Vec<char> = Vec::new();
    let mut i: usize = 0;
    while i < s.len()
        invariant
            i <= s.len(),
            s@ == text@,
            t@ == escape_text(s@.take(i as int)),
        decreases s.len() - i,
    {
        assert(s@.take(i + 1).drop_last() =~= s@.take(i as int));
        if s[i] == '|' {
            t.push('\\');
            t.push('|');
        } else if s[i] == '\n' {
            t.push(' ');
        } else {
            t.push(s[i]);
        }
        assert(t@ =~= escape_text(s@.take(i + 1)));
        i += 1;
    }
    assert(s@.take(s.len() as int) =~= s@);
    t
}

/// The source and the target of the problem.
fn endpoints(p: &Problem) -> (r: (String, String))
    ensures
        (r.0@, r.1@) == endpoints_of(p@),
{
    match p {
        Problem::IdMismatch { source, target } => (source.to_string(), target.to_string()),
        Problem::MultiStudentRange { source, target } => (source.to_string(), target.to_string()),
        _ => (p.subject(), String::new()),
    }
}

/// The source, the target, and the description of the problem.
fn columns(p: &Problem) -> (r: (String, String, String))
    ensures
        (r.0@, r.1@, r.2@) == columns_of(p@),
{
    match p {
        Problem::DuplicatedId { sheet, id, cells } => {
            let mut d = chars_of("duplicated student id ");
            append(&mut d, &chars_of(id.0.as_str()));
            (string_of(&cells_chars(sheet.as_str(), cells)), String::new(), string_of(&d))
        },
        _ => {
            let (source, target) = endpoints(p);
            (source, target, p.description())
        },
    }
}

/// Renders a row of the table.
fn render_row(p: &Problem) -> (r: Vec<char>)
    ensures
        r@ == problem_row(p@),
{
    let (source, target, description) = columns(p);
    let mut t = chars_of("| ");
    append(&mut t, &chars_of(p.kind()));
    append(&mut t, &chars_of(" | "));
    append(&mut t, &escape_chars(source.as_str()));
    append(&mut t, &chars_of(" | "));
    append(&mut t, &escape_chars(target.as_str()));
    append(&mut t, &chars_of(" | "));
    append(&mut t, &escape_chars(description.as_str()));
    append(&mut t, &chars_of(" |\n"));
    t
}

/// Renders the report: the heading, the table of the problems, and the summary.
pub fn render_report(report: &Report) -> (r: Vec<char>)
    ensures
        r@ == markdown_report(*report),
{
    let mut t = chars_of("## ");
    append(&mut t, &chars_of(report.file.as_str()));
    append(&mut t, &chars_of("\n\n"));
    let ghost start = t@;
    if report.problems.len() > 0 {
        append(&mut t, &chars_of("| Kind | Source | Target | Description |\n|---|---|---|---|\n"));
        let ghost head = t@;
        let mut i: usize = 0;
        while i < report.problems.len()
            invariant
                i <= report.problems.len(),
                t@ == head + problem_rows(report.problems@.take(i as int)),
            decreases report.problems.len() - i,
        {
            assert(report.problems@.take(i + 1).drop_last() =~= report.problems@.take(i as int));
            append(&mut t, &render_row(&report.problems[i]));
            i += 1;
        }
        assert(report.problems@.take(report.problems.len() as int) =~= report.problems@);
        append(&mut t, &chars_of("\n"));
    } else {
        assert(t@ =~= start + Seq::<char>::empty());
    }
    append(&mut t, &summary_line(&report.summary));
    append(&mut t, &chars_of("\n"));
    t
}

/// Renders the reports, separated by blank lines.
pub fn render(reports: &[Report]) -> (r: Vec<char>)
    ensures
        r@ == markdown_reports(reports@),
{
    let mut t: Vec<char> = Vec::new();
    let mut i: usize = 0;
    while i < reports.len()
        invariant
            i <= reports.len(),
            t@ == markdown_reports(reports@.take(i as int)),
        decreases reports.len() - i,
    {
        assert(reports@.take(i + 1).drop_last() =~= reports@.take(i as int));
        if i > 0 {
            append(&mut t, &chars_of("\n"));
        } else {
            assert(reports@.take(1) =~= seq![reports@[0]]);
        }
        append(&mut t, &render_report(&reports[i]));
        i += 1;
    }
    assert(reports@.take(reports.len() as int) =~= reports@);
    t
}

} // verus!
