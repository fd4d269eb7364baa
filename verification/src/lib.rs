//! mosty: detects misaligned cross-sheet references in grade workbooks.
//!
//! The library holds the logic: cell addresses, the formula scanner, the student
//! tables, the checker, the estimator of table layouts, and the text renderings.
//! Reading Excel files, the config file in JSON5, and the JSON output are done by
//! the command around it, which hands the library plain values.
use vstd::prelude::*;

pub mod cell;
pub mod checker;
pub mod config;
pub mod estimator;
pub mod formula;
pub mod output;
pub mod problem;
pub mod student;
pub mod table;
pub mod text;
pub mod workbook;

use crate::checker::{Checker, Note, check_notes_of, check_warnings_of, checked_tables, notes_view, problems_of, summary_of};
use crate::config::Config;
use crate::estimator::{Analysis, InitOptions, analyses_of, analysis_warnings, sheets_view};
use crate::problem::{Report, problems_view};
use crate::student::{IdPattern, anchored, regex_error};
use crate::text::{append, chars_of, decimal, decimal_chars, string_of, strings_view};
use crate::workbook::Workbook;

verus! {

/// The errors of the library and of the command around it.
#[derive(Debug)]
pub enum Error {
    /// Several errors (e.g., of several files).
    Array(Vec<Error>),
    /// The pattern of student ids is not a valid regular expression (the message).
    Regex(String),
    /// The config file is invalid (the path and the message).
    Config(String, String),
    /// The config file does not exist (the path).
    ConfigNotFound(String),
    /// The config file already exists (the path).
    ConfigExists(String),
    /// Reading or writing the file failed (the path and the message).
    Io(String, String),
    /// The file cannot be read as an Excel file (the path and the message).
    Xlsx(String, String),
    /// The feature is not implemented yet (its name).
    NotImplemented(String),
}

/// The results of the library.
pub type Result<T> = core::result::Result<T, Error>;

/// The successful values of the results, in order.
pub open spec fn oks<T>(rs: Seq<Result<T>>) -> Seq<T>
    decreases rs.len(),
{
    if rs.len() == 0 {
        Seq::empty()
    } else {
        match rs.last() {
            Ok(v) => oks(rs.drop_last()).push(v),
            Err(_) => oks(rs.drop_last()),
        }
    }
}

/// The errors of the results, in order.
pub open spec fn errs<T>(rs: Seq<Result<T>>) -> Seq<Error>
    decreases rs.len(),
{
    if rs.len() == 0 {
        Seq::empty()
    } else {
        match rs.last() {
            Ok(_) => errs(rs.drop_last()),
            Err(e) => errs(rs.drop_last()).push(e),
        }
    }
}

impl Error {
    /// Collects the successful values, or the errors if any.
    pub fn vec_result_to_result_vec<T>(from: Vec<Result<T>>) -> (r: Result<Vec<T>>)
        ensures
            errs(from@).len() == 0 ==> (r matches Ok(v) && v@ == oks(from@)),
            errs(from@).len() == 1 ==> r == Err::<Vec<T>, Error>(errs(from@)[0]),
            errs(from@).len() > 1 ==> (r matches Err(Error::Array(es)) && es@ == errs(from@)),
    {
        let ghost all = from@;
        let mut results: Vec<T> = Vec::new();
        let mut es: Vec<Error> = Vec::new();
        let mut rest = from;
        let ghost mut taken: Seq<Result<T>> = Seq::empty();
        // Take the results in order by reversing them first.
        let mut rev: Vec<Result<T>> = Vec::new();
        while rest.len() > 0
            invariant
                rest@ + rev@.reverse() == all,
            decreases rest.len(),
        {
            let r = rest.pop().unwrap();
            let ghost before = rev@;
            rev.push(r);
            assert(rev@.reverse() =~= seq![r] + before.reverse());
        }
        assert(rev@.reverse() =~= all);
        while rev.len() > 0
            invariant
                taken + rev@.reverse() == all,
                results@ == oks(taken),
                es@ == errs(taken),
            decreases rev.len(),
        {
            let r = rev.pop().unwrap();
            let ghost before = taken;
            proof {
                assert(taken.push(r) + rev@.reverse() =~= all);
                taken = taken.push(r);
                assert(taken.drop_last() =~= before);
            }
            match r {
                Ok(v) => {
                    results.push(v);
                },
                Err(e) => {
                    es.push(e);
                },
            }
        }
        assert(taken =~= all);
        Self::error_or(results, es)
    }

    /// `Ok` without errors, the error itself for one error, and `Array` of the
    /// errors for more.
    pub fn error_or<T>(result: T, errs: Vec<Self>) -> (r: Result<T>)
        ensures
            errs@.len() == 0 ==> r == Ok::<T, Error>(result),
            errs@.len() == 1 ==> r == Err::<T, Error>(errs@[0]),
            errs@.len() > 1 ==> (r matches Err(Error::Array(es)) && es@ == errs@),
    {
        if errs.len() == 0 {
            Ok(result)
        } else if errs.len() == 1 {
            let mut errs = errs;
            Err(errs.pop().unwrap())
        } else {
            Err(Error::Array(errs))
        }
    }
}

/// Checks the workbook of the Excel file `file` with the config. It returns the
/// report, the warnings about the student ids which cannot be resolved (whose
/// formulas Excel should recalculate), and the notes about what was skipped. The
/// pattern of student ids in the config must be a valid regular expression. The
/// sheets of the config are in the order of their names, each once, as
/// [`Config::new`] and [`Config::insert`] keep them.
pub fn check(file: String, workbook: &Workbook, config: &Config) -> (r: Result<
    (Report, Vec<String>, Vec<Note>),
>)
    requires
        config.wf(),
    ensures
        match r {
            Ok((report, warnings, notes)) => {
                let pattern = anchored(config.id_pattern@);
                let tables = checked_tables(workbook@, *config, pattern);
                &&& regex_error(pattern) is None
                &&& report.file == file
                &&& problems_view(report.problems@) == problems_of(workbook@, *config, pattern)
                &&& report.summary == summary_of(workbook@, *config, pattern)
                &&& strings_view(warnings@) == check_warnings_of(workbook@, tables)
                &&& notes_view(notes@) == check_notes_of(tables, workbook@)
            },
            Err(Error::Regex(message)) => regex_error(anchored(config.id_pattern@)) == Some(message@),
            Err(_) => false,
        },
{
    let pattern = match IdPattern::new(config.id_pattern.as_str()) {
        Ok(p) => p,
        Err(e) => {
            return Err(e);
        },
    };
    let checker = Checker::new(workbook, config, &pattern);
    let warnings = checker.warnings();
    let notes = checker.notes();
    let (problems, summary) = checker.run();
    Ok((Report { file, summary, problems }, warnings, notes))
}

/// Estimates the layouts of the student tables of the workbook of the Excel file
/// `file`. It returns the estimation, and the warnings about it which users should
/// review. The pattern of student ids must be a valid regular expression.
pub fn init(file: String, workbook: &Workbook, options: &InitOptions) -> (r: Result<(Analysis, Vec<String>)>)
    ensures
        match r {
            Ok((analysis, warnings)) => {
                let pattern = anchored(options.id_pattern@);
                &&& regex_error(pattern) is None
                &&& analysis.file == file
                &&& analysis.id_pattern@ == options.id_pattern@
                &&& sheets_view(analysis.sheets@) == analyses_of(workbook@, pattern, options.max_column)
                &&& strings_view(warnings@) == analysis_warnings(
                    workbook@,
                    pattern,
                    options.max_column,
                    workbook@.len() as int,
                )
            },
            Err(Error::Regex(message)) => regex_error(anchored(options.id_pattern@)) == Some(message@),
            Err(_) => false,
        },
{
    let pattern = match IdPattern::new(options.id_pattern.as_str()) {
        Ok(p) => p,
        Err(e) => {
            return Err(e);
        },
    };
    Ok(Analysis::new(file, workbook, options, &pattern))
}

/// The text right-aligned in three columns (`{:>3}`).
pub open spec fn right_aligned(t: Seq<char>) -> Seq<char> {
    if t.len() >= 3 {
        t
    } else {
        Seq::new((3 - t.len()) as nat, |i: int| ' ') + t
    }
}

/// The message of several errors: a heading, and a numbered line for each message.
pub open spec fn group_text(messages: Seq<Seq<char>>) -> Seq<char>
    decreases messages.len(),
{
    if messages.len() == 0 {
        "Multiple errors:"@
    } else {
        group_text(messages.drop_last()) + "\n "@ + right_aligned(decimal(messages.len())) + ".  "@
            + messages.last()
    }
}

/// Renders the messages of several errors: `Multiple errors:` and a numbered line
/// for each message.
pub fn render_group(messages: &[String]) -> (r: String)
    ensures
        r@ == group_text(messages@.map_values(|m: String| m@)),
{
    let ghost mv = messages@.map_values(|m: String| m@);
    let mut t = chars_of("Multiple errors:");
    let mut i: usize = 0;
    while i < messages.len()
        invariant
            i <= messages.len(),
            mv == messages@.map_values(|m: String| m@),
            t@ == group_text(mv.take(i as int)),
        decreases messages.len() - i,
    {
        assert(mv.take(i + 1).drop_last() =~= mv.take(i as int));
        append(&mut t, &chars_of("\n "));
        let number = decimal_chars(i as u64 + 1);
        if number.len() < 3 {
            let mut k: usize = number.len();
            let ghost before = t@;
            while k < 3
                invariant
                    number.len() <= k <= 3,
                    t@ == before + Seq::new((k - number.len()) as nat, |j: int| ' '),
                decreases 3 - k,
            {
                t.push(' ');
                k += 1;
                assert(t@ =~= before + Seq::new((k - number.len()) as nat, |j: int| ' '));
            }
        }
        append(&mut t, &number);
        append(&mut t, &chars_of(".  "));
        append(&mut t, &chars_of(messages[i].as_str()));
        assert(t@ =~= group_text(mv.take(i + 1)));
        i += 1;
    }
    assert(mv.take(messages.len() as int) =~= mv);
    string_of(&t)
}

} // verus!
