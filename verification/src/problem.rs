//! The results of checking: the problems, the summary, and the report of a file.
use vstd::prelude::*;
use crate::cell::{CellRange, CellRef, copy_cells};
use crate::formula::opt_view;
use crate::student::{Student, StudentId};
use crate::text::{append, chars_of, string_of};

verus! {

/// A cell in a student row.
#[derive(Debug, PartialEq, Eq)]
pub struct Location {
    pub sheet: String,
    pub cell: CellRef,
    pub id: StudentId,
    pub name: Option<String>,
}

/// The model of a cell in a student row.
pub struct LocationView {
    pub sheet: Seq<char>,
    pub cell: CellRef,
    pub id: Seq<char>,
    pub name: Option<Seq<char>>,
}

impl View for Location {
    type V = LocationView;

    open spec fn view(&self) -> LocationView {
        LocationView { sheet: self.sheet@, cell: self.cell, id: self.id@, name: opt_view(self.name) }
    }
}

/// A range of cells in a sheet.
#[derive(Debug, PartialEq, Eq)]
pub struct RangeLocation {
    pub sheet: String,
    pub range: CellRange,
}

/// The model of a range of cells in a sheet.
pub struct RangeLocationView {
    pub sheet: Seq<char>,
    pub range: CellRange,
}

impl View for RangeLocation {
    type V = RangeLocationView;

    open spec fn view(&self) -> RangeLocationView {
        RangeLocationView { sheet: self.sheet@, range: self.range }
    }
}

/// A problem found by checking.
#[derive(Debug, PartialEq, Eq)]
pub enum Problem {
    /// The student of the referring row differs from the student of the referred row.
    IdMismatch { source: Location, target: Location },
    /// A student row refers to a range which spans multiple students.
    MultiStudentRange { source: Location, target: RangeLocation },
    /// The same student id appears in multiple rows of a student table.
    DuplicatedId { sheet: String, id: StudentId, cells: Vec<CellRef> },
    /// The sheet in the workbook is not in the config file.
    UnknownSheet { sheet: String },
    /// The sheet in the config file is not in the workbook.
    MissingSheet { sheet: String },
    /// A student id is outside the student table.
    IdOutsideTable { sheet: String, cell: CellRef, id: StudentId },
}

/// The model of a problem.
pub enum ProblemView {
    IdMismatch { source: LocationView, target: LocationView },
    MultiStudentRange { source: LocationView, target: RangeLocationView },
    DuplicatedId { sheet: Seq<char>, id: Seq<char>, cells: Seq<CellRef> },
    UnknownSheet { sheet: Seq<char> },
    MissingSheet { sheet: Seq<char> },
    IdOutsideTable { sheet: Seq<char>, cell: CellRef, id: Seq<char> },
}

impl View for Problem {
    type V = ProblemView;

    open spec fn view(&self) -> ProblemView {
        match self {
            Problem::IdMismatch { source, target } => ProblemView::IdMismatch {
                source: source@,
                target: target@,
            },
            Problem::MultiStudentRange { source, target } => ProblemView::MultiStudentRange {
                source: source@,
                target: target@,
            },
            Problem::DuplicatedId { sheet, id, cells } => ProblemView::DuplicatedId {
                sheet: sheet@,
                id: id@,
                cells: cells@,
            },
            Problem::UnknownSheet { sheet } => ProblemView::UnknownSheet { sheet: sheet@ },
            Problem::MissingSheet { sheet } => ProblemView::MissingSheet { sheet: sheet@ },
            Problem::IdOutsideTable { sheet, cell, id } => ProblemView::IdOutsideTable {
                sheet: sheet@,
                cell: *cell,
                id: id@,
            },
        }
    }
}

/// The models of the problems.
pub open spec fn problems_view(ps: Seq<Problem>) -> Seq<ProblemView> {
    ps.map_values(|p: Problem| p@)
}

/// The summary of checking an Excel file.
#[derive(Debug, Clone, Copy, Default, PartialEq, Eq, Structural)]
pub struct Summary {
    /// The number of checked student sheets.
    pub sheets: usize,
    /// The number of checked cross-sheet references.
    pub references: usize,
    /// The number of problems.
    pub problems: usize,
}

/// The result of checking an Excel file.
#[derive(Debug)]
pub struct Report {
    /// The checked file.
    pub file: String,
    pub summary: Summary,
    pub problems: Vec<Problem>,
}

impl Report {
    /// Returns true if the report has problems.
    pub fn has_problems(&self) -> (r: bool)
        ensures
            r == (self.problems.len() > 0),
    {
        !self.problems.is_empty()
    }
}

fn clone_string_opt(s: &Option<String>) -> (r: Option<String>)
    ensures
        opt_view(r) == opt_view(*s),
{
    match s {
        Some(s) => Some(s.clone()),
        None => None,
    }
}


impl Clone for Location {
    fn clone(&self) -> (r: Self)
        ensures
            r@ == self@,
    {
        Location {
            sheet: self.sheet.clone(),
            cell: self.cell,
            id: self.id.clone(),
            name: clone_string_opt(&self.name),
        }
    }
}

impl Clone for RangeLocation {
    fn clone(&self) -> (r: Self)
        ensures
            r@ == self@,
    {
        RangeLocation { sheet: self.sheet.clone(), range: self.range }
    }
}

impl Clone for Problem {
    fn clone(&self) -> (r: Self)
        ensures
            r@ == self@,
    {
        match self {
            Problem::IdMismatch { source, target } => Problem::IdMismatch {
                source: source.clone(),
                target: target.clone(),
            },
            Problem::MultiStudentRange { source, target } => Problem::MultiStudentRange {
                source: source.clone(),
                target: target.clone(),
            },
            Problem::DuplicatedId { sheet, id, cells } => Problem::DuplicatedId {
                sheet: sheet.clone(),
                id: id.clone(),
                cells: copy_cells(cells),
            },
            Problem::UnknownSheet { sheet } => Problem::UnknownSheet { sheet: sheet.clone() },
            Problem::MissingSheet { sheet } => Problem::MissingSheet { sheet: sheet.clone() },
            Problem::IdOutsideTable { sheet, cell, id } => Problem::IdOutsideTable {
                sheet: sheet.clone(),
                cell: *cell,
                id: id.clone(),
            },
        }
    }
}

impl Location {
    /// The cell of the student in the sheet.
    pub fn new(sheet: &str, cell: CellRef, student: &Student) -> (r: Self)
        ensures
            r@ == (LocationView { sheet: sheet@, cell, id: student@.id, name: student@.name }),
    {
        Location {
            sheet: String::from_str(sheet),
            cell,
            id: student.id.clone(),
            name: clone_string_opt(&student.name),
        }
    }
}

impl RangeLocation {
    /// The range in the sheet.
    pub fn new(sheet: &str, range: CellRange) -> (r: Self)
        ensures
            r@ == (RangeLocationView { sheet: sheet@, range }),
    {
        RangeLocation { sheet: String::from_str(sheet), range }
    }
}

// ---------------------------------------------------------------------------
// The texts of problems.

/// `<sheet>!<cell> (<id> <name>)`, or `<sheet>!<cell> (<id>)` without a name.
pub open spec fn location_text(l: LocationView) -> Seq<char> {
    l.sheet + "!"@ + l.cell.a1() + " ("@ + l.id + match l.name {
        Some(n) => " "@ + n + ")"@,
        None => ")"@,
    }
}

/// `<sheet>!<range>`.
pub open spec fn range_location_text(l: RangeLocationView) -> Seq<char> {
    l.sheet + "!"@ + l.range.a1()
}

/// The cells with the sheet name, separated by `, ` (e.g., `課題!A12, 課題!A13`).
pub open spec fn cells_text(sheet: Seq<char>, cells: Seq<CellRef>) -> Seq<char>
    decreases cells.len(),
{
    if cells.len() == 0 {
        Seq::empty()
    } else if cells.len() == 1 {
        sheet + "!"@ + cells[0].a1()
    } else {
        cells_text(sheet, cells.drop_last()) + ", "@ + sheet + "!"@ + cells.last().a1()
    }
}

/// Where the problem is.
pub open spec fn subject_of(p: ProblemView) -> Seq<char> {
    match p {
        ProblemView::IdMismatch { source, target } => location_text(source) + " -> "@ + location_text(
            target,
        ),
        ProblemView::MultiStudentRange { source, target } => location_text(source) + " -> "@
            + range_location_text(target),
        ProblemView::DuplicatedId { sheet, .. } => sheet,
        ProblemView::UnknownSheet { sheet } => sheet,
        ProblemView::MissingSheet { sheet } => sheet,
        ProblemView::IdOutsideTable { sheet, cell, .. } => sheet + "!"@ + cell.a1(),
    }
}

/// What the problem is.
pub open spec fn description_of(p: ProblemView) -> Seq<char> {
    match p {
        ProblemView::IdMismatch { .. } => "student id mismatch"@,
        ProblemView::MultiStudentRange { .. } => "range spans multiple students"@,
        ProblemView::DuplicatedId { sheet, id, cells } => "duplicated student id "@ + id + " at "@
            + cells_text(sheet, cells),
        ProblemView::UnknownSheet { .. } => "sheet is not in the config file (run `mosty init` again)"@,
        ProblemView::MissingSheet { .. } => "sheet is not in the workbook"@,
        ProblemView::IdOutsideTable { id, .. } => "student id "@ + id + " is outside the student table"@,
    }
}

/// The name of the kind of the problem, as in the JSON output.
pub open spec fn kind_of(p: ProblemView) -> Seq<char> {
    match p {
        ProblemView::IdMismatch { .. } => "id_mismatch"@,
        ProblemView::MultiStudentRange { .. } => "multi_student_range"@,
        ProblemView::DuplicatedId { .. } => "duplicated_id"@,
        ProblemView::UnknownSheet { .. } => "unknown_sheet"@,
        ProblemView::MissingSheet { .. } => "missing_sheet"@,
        ProblemView::IdOutsideTable { .. } => "id_outside_table"@,
    }
}

/// Appends `<sheet>!<cell>`.
fn push_cell(t: &mut Vec<char>, sheet: &str, cell: CellRef)
    ensures
        final(t)@ == old(t)@ + sheet@ + "!"@ + cell.a1(),
{
    append(t, &chars_of(sheet));
    append(t, &chars_of("!"));
    append(t, &cell.to_chars());
}

impl Location {
    /// The text of the location (e.g., `最終成績!D5 (1234004 山田)`).
    pub fn to_chars(&self) -> (r: Vec<char>)
        ensures
            r@ == location_text(self@),
    {
        let mut t: Vec<char> = Vec::new();
        push_cell(&mut t, self.sheet.as_str(), self.cell);
        append(&mut t, &chars_of(" ("));
        append(&mut t, &chars_of(self.id.0.as_str()));
        match &self.name {
            Some(name) => {
                append(&mut t, &chars_of(" "));
                append(&mut t, &chars_of(name.as_str()));
                append(&mut t, &chars_of(")"));
            },
            None => {
                append(&mut t, &chars_of(")"));
            },
        }
        t
    }

    /// The text of the location (e.g., `最終成績!D5 (1234004 山田)`).
    pub fn to_string(&self) -> (r: String)
        ensures
            r@ == location_text(self@),
    {
        string_of(&self.to_chars())
    }
}

impl RangeLocation {
    /// The text of the range (e.g., `課題!E4:E8`).
    pub fn to_chars(&self) -> (r: Vec<char>)
        ensures
            r@ == range_location_text(self@),
    {
        let mut t = chars_of(self.sheet.as_str());
        append(&mut t, &chars_of("!"));
        append(&mut t, &self.range.to_chars());
        t
    }

    /// The text of the range (e.g., `課題!E4:E8`).
    pub fn to_string(&self) -> (r: String)
        ensures
            r@ == range_location_text(self@),
    {
        string_of(&self.to_chars())
    }
}

pub fn cells_chars(sheet: &str, cells: &Vec<CellRef>) -> (r: Vec<char>)
    ensures
        r@ == cells_text(sheet@, cells@),
{
    let mut t: Vec<char> = Vec::new();
    let mut i: usize = 0;
    while i < cells.len()
        invariant
            i <= cells.len(),
            t@ == cells_text(sheet@, cells@.take(i as int)),
        decreases cells.len() - i,
    {
        assert(cells@.take(i + 1).drop_last() =~= cells@.take(i as int));
        if i > 0 {
            append(&mut t, &chars_of(", "));
        } else {
            assert(t@ =~= Seq::<char>::empty());
        }
        push_cell(&mut t, sheet, cells[i]);
        i += 1;
        assert(t@ =~= cells_text(sheet@, cells@.take(i as int)));
    }
    assert(cells@.take(cells.len() as int) =~= cells@);
    t
}

impl Problem {
    /// Where the problem is (e.g., `最終成績!D5 (1234004 山田) -> 課題!C6 (1234005 佐藤)`).
    pub fn subject(&self) -> (r: String)
        ensures
            r@ == subject_of(self@),
    {
        match self {
            Problem::IdMismatch { source, target } => {
                let mut t = source.to_chars();
                append(&mut t, &chars_of(" -> "));
                append(&mut t, &target.to_chars());
                string_of(&t)
            },
            Problem::MultiStudentRange { source, target } => {
                let mut t = source.to_chars();
                append(&mut t, &chars_of(" -> "));
                append(&mut t, &target.to_chars());
                string_of(&t)
            },
            Problem::DuplicatedId { sheet, .. } => sheet.clone(),
            Problem::UnknownSheet { sheet } => sheet.clone(),
            Problem::MissingSheet { sheet } => sheet.clone(),
            Problem::IdOutsideTable { sheet, cell, .. } => {
                let mut t: Vec<char> = Vec::new();
                push_cell(&mut t, sheet.as_str(), *cell);
                string_of(&t)
            },
        }
    }

    /// What the problem is (e.g., `student id mismatch`).
    pub fn description(&self) -> (r: String)
        ensures
            r@ == description_of(self@),
    {
        match self {
            Problem::IdMismatch { .. } => String::from_str("student id mismatch"),
            Problem::MultiStudentRange { .. } => String::from_str("range spans multiple students"),
            Problem::DuplicatedId { sheet, id, cells } => {
                let mut t = chars_of("duplicated student id ");
                append(&mut t, &chars_of(id.0.as_str()));
                append(&mut t, &chars_of(" at "));
                append(&mut t, &cells_chars(sheet.as_str(), cells));
                string_of(&t)
            },
            Problem::UnknownSheet { .. } => String::from_str(
                "sheet is not in the config file (run `mosty init` again)",
            ),
            Problem::MissingSheet { .. } => String::from_str("sheet is not in the workbook"),
            Problem::IdOutsideTable { id, .. } => {
                let mut t = chars_of("student id ");
                append(&mut t, &chars_of(id.0.as_str()));
                append(&mut t, &chars_of(" is outside the student table"));
                string_of(&t)
            },
        }
    }

    /// The problem as a line: `<subject>: <description>`.
    pub fn to_string(&self) -> (r: String)
        ensures
            r@ == subject_of(self@) + ": "@ + description_of(self@),
    {
        let mut t = chars_of(self.subject().as_str());
        append(&mut t, &chars_of(": "));
        append(&mut t, &chars_of(self.description().as_str()));
        string_of(&t)
    }

    /// The name of the kind of the problem (e.g., `id_mismatch`).
    pub fn kind(&self) -> (r: &'static str)
        ensures
            r@ == kind_of(self@),
    {
        match self {
            Problem::IdMismatch { .. } => "id_mismatch",
            Problem::MultiStudentRange { .. } => "multi_student_range",
            Problem::DuplicatedId { .. } => "duplicated_id",
            Problem::UnknownSheet { .. } => "unknown_sheet",
            Problem::MissingSheet { .. } => "missing_sheet",
            Problem::IdOutsideTable { .. } => "id_outside_table",
        }
    }
}

} // verus!
