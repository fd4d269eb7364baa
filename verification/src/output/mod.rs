//! Renders the reports in the output formats.
//!
//! The default format is for reading in a terminal, and the Markdown format is
//! for pasting into documents. The JSON format is written by the command around
//! the library, with the same data.
use vstd::prelude::*;
use crate::problem::{Report, Summary};
use crate::text::{append, chars_of, decimal, decimal_chars, string_of};

pub mod markdown;
pub mod plain;

pub use markdown::{escape_text, markdown_report, markdown_reports};
pub use plain::{plain_report, plain_reports};
use markdown::lemma_markdown_reports_concat;
use plain::lemma_plain_reports_concat;

verus! {

/// The output formats of the results.
#[derive(Debug, Clone, Copy, PartialEq, Eq, Structural)]
pub enum Format {
    /// For reading in a terminal.
    Default,
    /// For processing with other tools.
    Json,
    /// For reports and notes.
    Markdown,
}

/// `<n> problems (<m> sheets, <k> references checked)`, with `problem` for one.
pub open spec fn summary_text(s: Summary) -> Seq<char> {
    decimal(s.problems as nat) + if s.problems == 1 {
        " problem ("@
    } else {
        " problems ("@
    } + decimal(s.sheets as nat) + " sheets, "@ + decimal(s.references as nat) + " references checked)"@
}

/// Returns true if the destination means stdout (`-`).
pub fn is_stdout(dest: &str) -> (r: bool)
    ensures
        r == (dest@ == "-"@),
{
    crate::text::str_eq(dest, "-")
}

/// The text of the reports in the format; `None` for JSON, which the command
/// writes with the same data.
pub open spec fn rendered(reports: Seq<Report>, format: Format) -> Option<Seq<char>> {
    match format {
        Format::Default => Some(plain_reports(reports)),
        Format::Markdown => Some(markdown_reports(reports)),
        Format::Json => None,
    }
}

/// Rendering no report gives an empty text; the text of a report starts with its
/// file; in the default format the text of two lists of reports is the text of
/// the first followed by the text of the second, and in Markdown, for two
/// nonempty lists, with a blank line between them.
pub proof fn lemma_rendered_concat(a: Seq<Report>, b: Seq<Report>, r: Report)
    ensures
        rendered(Seq::<Report>::empty(), Format::Default) == Some(Seq::<char>::empty()),
        rendered(Seq::<Report>::empty(), Format::Markdown) == Some(Seq::<char>::empty()),
        plain_reports(seq![r]).take(r.file@.len() as int) == r.file@,
        rendered(a + b, Format::Default) == Some(plain_reports(a) + plain_reports(b)),
        a.len() > 0 && b.len() > 0 ==> rendered(a + b, Format::Markdown) == Some(
            markdown_reports(a) + "\n"@ + markdown_reports(b),
        ),
{
    lemma_plain_reports_concat(a, b);
    if a.len() > 0 && b.len() > 0 {
        lemma_markdown_reports_concat(a, b);
    }
    assert(seq![r].drop_last() =~= Seq::<Report>::empty());
    assert(plain_reports(seq![r]) =~= plain_report(r));
    assert(plain_report(r).take(r.file@.len() as int) =~= r.file@);
}

/// The summary as a line without the line break
/// (e.g., `2 problems (5 sheets, 1234 references checked)`).
pub fn summary_line(summary: &Summary) -> (r: Vec<char>)
    ensures
        r@ == summary_text(*summary),
{
    let mut t = decimal_chars(summary.problems as u64);
    if summary.problems == 1 {
        append(&mut t, &chars_of(" problem ("));
    } else {
        append(&mut t, &chars_of(" problems ("));
    }
    append(&mut t, &decimal_chars(summary.sheets as u64));
    append(&mut t, &chars_of(" sheets, "));
    append(&mut t, &decimal_chars(summary.references as u64));
    append(&mut t, &chars_of(" references checked)"));
    t
}

/// Renders the reports in the format. It returns `None` for JSON, which the
/// command writes from the same reports.
pub fn render(reports: &[Report], format: Format) -> (r: Option<String>)
    ensures
        match r {
            Some(text) => rendered(reports@, format) == Some(text@),
            None => rendered(reports@, format) is None,
        },
{
    match format {
        Format::Default => Some(string_of(&plain::render(reports))),
        Format::Markdown => Some(string_of(&markdown::render(reports))),
        Format::Json => None,
    }
}

} // verus!
