//! Checks the cross-sheet references from student rows.
use vstd::prelude::*;
use super::{Checker, TableModel, table_model, tables_view};
use crate::cell::CellRef;
use crate::formula::{RefView, Reference, Usage, parse, parsed};
use crate::problem::{
    Location,
    LocationView,
    Problem,
    ProblemView,
    RangeLocation,
    RangeLocationView,
    problems_view,
};
use crate::student::StudentView;
use crate::table::{StudentTable, lemma_row_student_index, lemma_students_where, row_student, rows_increasing, students_where};
use crate::text::{chars_eq, chars_of, str_eq};
use crate::workbook::{SheetView, formulas_of};

verus! {

/// The count, or the largest `usize` if it is larger.
pub open spec fn saturated(n: nat) -> usize {
    if n <= usize::MAX {
        n as usize
    } else {
        usize::MAX
    }
}

/// The table of the sheet.
pub open spec fn find_table(ts: Seq<TableModel>, sheet: Seq<char>) -> Option<TableModel>
    decreases ts.len(),
{
    if ts.len() == 0 {
        None
    } else if ts[0].sheet == sheet {
        Some(ts[0])
    } else {
        find_table(ts.drop_first(), sheet)
    }
}

/// The cell of the student in the sheet.
pub open spec fn location_of(sheet: Seq<char>, cell: CellRef, s: StudentView) -> LocationView {
    LocationView { sheet, cell, id: s.id, name: s.name }
}

/// A mismatch if the students of the two cells differ.
pub open spec fn mismatch_of(source: LocationView, target: LocationView) -> Option<ProblemView> {
    if source.id != target.id {
        Some(ProblemView::IdMismatch { source, target })
    } else {
        None
    }
}

/// A reference to a cell (or a range in a row): the students of the two rows must
/// agree. A reference to a non-student row is no problem.
pub open spec fn single_row_problem_of(source: LocationView, target: TableModel, cell: CellRef) -> Option<
    ProblemView,
> {
    match row_student(target.students, cell.row) {
        None => None,
        Some(s) => mismatch_of(source, location_of(target.sheet, cell, s)),
    }
}

/// A reference to a range over several rows: a problem if it spans several
/// students, except in lookup functions. A range with one student is checked like
/// a cell of the row of the student.
pub open spec fn multi_row_problem_of(source: LocationView, target: TableModel, r: RefView) -> Option<
    ProblemView,
> {
    let students = students_where(
        target.students,
        |row: u32| r.range.start.row <= row && row <= r.range.end.row,
    );
    if students.len() == 0 {
        None
    } else if r.usage == Usage::Lookup {
        None
    } else if students.len() == 1 {
        mismatch_of(
            source,
            location_of(target.sheet, CellRef { row: students[0].0, col: r.range.start.col }, students[0].1),
        )
    } else {
        Some(
            ProblemView::MultiStudentRange {
                source,
                target: RangeLocationView { sheet: target.sheet, range: r.range },
            },
        )
    }
}

/// Whether the reference from the source cell is checked (it refers to another
/// student sheet, and not in a function such as `OFFSET`), and its problem.
pub open spec fn reference_problem_of(ts: Seq<TableModel>, source: LocationView, r: RefView) -> (
    bool,
    Option<ProblemView>,
) {
    match r.sheet {
        None => (false, None),
        Some(sheet) => if sheet == source.sheet {
            (false, None)
        } else {
            match find_table(ts, sheet) {
                None => (false, None),
                Some(target) => if r.usage == Usage::Dynamic {
                    (false, None)
                } else if r.range.start.row == r.range.end.row {
                    (true, single_row_problem_of(source, target, r.range.start))
                } else {
                    (true, multi_row_problem_of(source, target, r))
                },
            }
        },
    }
}

/// References within the same sheet, to sheets that are not checked student
/// sheets, and in functions such as `OFFSET` are not checked; and a range in a
/// lookup function is never reported as spanning several students.
pub proof fn lemma_unchecked_references(ts: Seq<TableModel>, source: LocationView, r: RefView)
    ensures
        (r.sheet is None || r.sheet == Some(source.sheet) || find_table(ts, r.sheet->0) is None
            || r.usage == Usage::Dynamic) ==> reference_problem_of(ts, source, r) == (
            false,
            None::<ProblemView>,
        ),
        r.usage == Usage::Lookup ==> !(reference_problem_of(ts, source, r).1 matches Some(
            ProblemView::MultiStudentRange { .. },
        )),
{
}

/// A range over the rows of the target table that hold exactly one student, not in
/// a lookup function, is checked like the cell of that student's row in the first
/// column of the range: a mismatch if the two students differ, and no problem
/// otherwise.
pub proof fn lemma_one_student_range(source: LocationView, target: TableModel, r: RefView, row: u32)
    requires
        rows_increasing(target.students),
        r.usage != Usage::Lookup,
        r.range.start.row <= row <= r.range.end.row,
        row_student(target.students, row) is Some,
        forall|other: u32|
            r.range.start.row <= other <= r.range.end.row && other != row ==> #[trigger] row_student(
                target.students,
                other,
            ) is None,
    ensures
        ({
            let st = row_student(target.students, row)->0;
            multi_row_problem_of(source, target, r) == if st.id != source.id {
                Some(
                    ProblemView::IdMismatch {
                        source,
                        target: LocationView {
                            sheet: target.sheet,
                            cell: CellRef { row, col: r.range.start.col },
                            id: st.id,
                            name: st.name,
                        },
                    },
                )
            } else {
                None
            }
        }),
{
    let s = target.students;
    let st = row_student(s, row)->0;
    let pred = |rr: u32| r.range.start.row <= rr && rr <= r.range.end.row;
    let w = students_where(s, pred);
    lemma_row_student_index(s, row);
    lemma_students_where(s, pred);
    let i0 = choose|i: int| 0 <= i < s.len() && #[trigger] s[i] == (row, st);
    assert(pred(s[i0].0));
    assert(w.contains(s[i0]));
    assert forall|k: int| 0 <= k < w.len() implies #[trigger] w[k].0 == row by {
        let i = choose|i: int| 0 <= i < s.len() && #[trigger] w[k] == s[i] && pred(s[i].0);
        lemma_row_student_index(s, s[i].0);
        if s[i].0 != row {
            assert(row_student(s, s[i].0) is None);
        }
    }
    if w.len() > 1 {
        assert(w[0].0 < w[1].0);
    }
    let k0 = choose|k: int| 0 <= k < w.len() && w[k] == s[i0];
    assert(w.len() == 1 && w[0] == (row, st));
}

pub open spec fn opt_seq(p: Option<ProblemView>) -> Seq<ProblemView> {
    match p {
        Some(p) => seq![p],
        None => Seq::empty(),
    }
}

/// The problems of the references from the source cell, and the number of checked
/// references.
pub open spec fn formula_problems_of(ts: Seq<TableModel>, source: LocationView, refs: Seq<RefView>) -> (
    Seq<ProblemView>,
    nat,
)
    decreases refs.len(),
{
    if refs.len() == 0 {
        (Seq::empty(), 0)
    } else {
        let (ps, n) = formula_problems_of(ts, source, refs.drop_last());
        let (checked, p) = reference_problem_of(ts, source, refs.last());
        (ps + opt_seq(p), if checked { n + 1 } else { n })
    }
}

/// The problems of the formulas of the student rows of the table (except the
/// student id cells), and the number of checked references.
pub open spec fn table_problems_of(ts: Seq<TableModel>, t: TableModel, fs: Seq<(CellRef, Seq<char>)>) -> (
    Seq<ProblemView>,
    nat,
)
    decreases fs.len(),
{
    if fs.len() == 0 {
        (Seq::empty(), 0)
    } else {
        let (ps, n) = table_problems_of(ts, t, fs.drop_last());
        let (cell, text) = fs.last();
        match row_student(t.students, cell.row) {
            None => (ps, n),
            Some(s) => if cell.col == t.layout.id_column {
                (ps, n)
            } else {
                let (qs, m) = formula_problems_of(
                    ts,
                    location_of(t.sheet, cell, s),
                    parsed(text).references,
                );
                (ps + qs, n + m)
            },
        }
    }
}

/// The problems of the references of the tables in `some`, with the tables `ts`
/// as targets, and the number of checked references.
pub open spec fn tables_problems_of(ts: Seq<TableModel>, wb: Seq<SheetView>, some: Seq<TableModel>) -> (
    Seq<ProblemView>,
    nat,
)
    decreases some.len(),
{
    if some.len() == 0 {
        (Seq::empty(), 0)
    } else {
        let (ps, n) = tables_problems_of(ts, wb, some.drop_last());
        let (qs, m) = table_problems_of(ts, some.last(), formulas_of(wb, some.last().sheet));
        (ps + qs, n + m)
    }
}

/// The problems of the cross-sheet references from the student rows, and the
/// number of checked references.
pub open spec fn reference_problems_of(ts: Seq<TableModel>, wb: Seq<SheetView>) -> (
    Seq<ProblemView>,
    nat,
) {
    tables_problems_of(ts, wb, ts)
}

/// The problem is about a reference from the source cell: a mismatch or a range
/// over several students.
pub open spec fn from_source(p: ProblemView, src: LocationView) -> bool {
    match p {
        ProblemView::IdMismatch { source, .. } => source == src,
        ProblemView::MultiStudentRange { source, .. } => source == src,
        _ => false,
    }
}

/// The problem is about a reference from a cell of a student row of the table
/// other than its id cell, and names the student of that row.
pub open spec fn from_table(p: ProblemView, t: TableModel) -> bool {
    match p {
        ProblemView::IdMismatch { source, .. } => source_in_table(source, t),
        ProblemView::MultiStudentRange { source, .. } => source_in_table(source, t),
        _ => false,
    }
}

pub open spec fn source_in_table(source: LocationView, t: TableModel) -> bool {
    &&& source.sheet == t.sheet
    &&& source.cell.col != t.layout.id_column
    &&& row_student(t.students, source.cell.row) == Some(StudentView { id: source.id, name: source.name })
}

proof fn lemma_formula_problems_from_source(ts: Seq<TableModel>, src: LocationView, refs: Seq<RefView>)
    ensures
        forall|k: int|
            0 <= k < formula_problems_of(ts, src, refs).0.len() ==> from_source(
                #[trigger] formula_problems_of(ts, src, refs).0[k],
                src,
            ),
    decreases refs.len(),
{
    if refs.len() > 0 {
        lemma_formula_problems_from_source(ts, src, refs.drop_last());
        let ps = formula_problems_of(ts, src, refs.drop_last()).0;
        let p = reference_problem_of(ts, src, refs.last()).1;
        let all = formula_problems_of(ts, src, refs).0;
        assert(all == ps + opt_seq(p));
        assert forall|k: int| 0 <= k < all.len() implies from_source(#[trigger] all[k], src) by {
            if k < ps.len() {
                assert(all[k] == ps[k]);
            } else {
                assert(all[k] == p->0);
            }
        }
    }
}

/// The problems of the formulas of a table are about references from cells of
/// its student rows other than the id cells: a formula in an id cell or in a row
/// without a student is not checked.
pub proof fn lemma_table_problems_from_table(ts: Seq<TableModel>, t: TableModel, fs: Seq<(CellRef, Seq<char>)>)
    ensures
        forall|k: int|
            0 <= k < table_problems_of(ts, t, fs).0.len() ==> from_table(
                #[trigger] table_problems_of(ts, t, fs).0[k],
                t,
            ),
    decreases fs.len(),
{
    if fs.len() > 0 {
        lemma_table_problems_from_table(ts, t, fs.drop_last());
        let ps = table_problems_of(ts, t, fs.drop_last()).0;
        let all = table_problems_of(ts, t, fs).0;
        let (cell, text) = fs.last();
        if let Some(st) = row_student(t.students, cell.row) {
            if cell.col != t.layout.id_column {
                let src = location_of(t.sheet, cell, st);
                let qs = formula_problems_of(ts, src, parsed(text).references).0;
                lemma_formula_problems_from_source(ts, src, parsed(text).references);
                assert(all == ps + qs);
                assert forall|k: int| 0 <= k < all.len() implies from_table(#[trigger] all[k], t) by {
                    if k < ps.len() {
                        assert(all[k] == ps[k]);
                    } else {
                        assert(all[k] == qs[k - ps.len()]);
                        assert(from_source(qs[k - ps.len()], src));
                    }
                }
            }
        }
    }
}

/// Every problem of the references comes from one of the tables.
pub proof fn lemma_reference_problems_from_tables(ts: Seq<TableModel>, wb: Seq<SheetView>, some: Seq<TableModel>)
    ensures
        forall|k: int|
            0 <= k < tables_problems_of(ts, wb, some).0.len() ==> exists|i: int|
                0 <= i < some.len() && from_table(#[trigger] tables_problems_of(ts, wb, some).0[k], some[i]),
    decreases some.len(),
{
    if some.len() > 0 {
        let p = some.drop_last();
        lemma_reference_problems_from_tables(ts, wb, p);
        let t = some.last();
        lemma_table_problems_from_table(ts, t, formulas_of(wb, t.sheet));
        let ps = tables_problems_of(ts, wb, p).0;
        let qs = table_problems_of(ts, t, formulas_of(wb, t.sheet)).0;
        let all = tables_problems_of(ts, wb, some).0;
        assert(all == ps + qs);
        assert forall|k: int| 0 <= k < all.len() implies exists|i: int|
            0 <= i < some.len() && from_table(#[trigger] all[k], some[i]) by {
            if k < ps.len() {
                assert(all[k] == ps[k]);
                let i = choose|i: int| 0 <= i < p.len() && from_table(#[trigger] ps[k], p[i]);
                assert(some[i] == p[i]);
            } else {
                assert(all[k] == qs[k - ps.len()]);
                assert(from_table(qs[k - ps.len()], some[some.len() - 1]));
            }
        }
    }
}

/// A reference from the source cell is checked: it refers to another sheet that
/// has a student table, and not in a function such as `OFFSET`.
pub open spec fn checked_reference(ts: Seq<TableModel>, source: LocationView, r: RefView) -> bool {
    &&& r.sheet matches Some(sheet) && sheet != source.sheet && find_table(ts, sheet) is Some
    &&& r.usage != Usage::Dynamic
}

pub open spec fn checked_by(ts: Seq<TableModel>, source: LocationView) -> spec_fn(RefView) -> bool {
    |r: RefView| checked_reference(ts, source, r)
}

/// The checked references of the formulas of the student rows of the table, other
/// than its id cells, formula by formula.
pub open spec fn table_checked(ts: Seq<TableModel>, t: TableModel, fs: Seq<(CellRef, Seq<char>)>) -> Seq<RefView>
    decreases fs.len(),
{
    if fs.len() == 0 {
        Seq::empty()
    } else {
        let prev = table_checked(ts, t, fs.drop_last());
        let (cell, text) = fs.last();
        match row_student(t.students, cell.row) {
            None => prev,
            Some(s) => if cell.col == t.layout.id_column {
                prev
            } else {
                prev + parsed(text).references.filter(checked_by(ts, location_of(t.sheet, cell, s)))
            },
        }
    }
}

/// The checked references of the tables in `some`, table by table.
pub open spec fn tables_checked(ts: Seq<TableModel>, wb: Seq<SheetView>, some: Seq<TableModel>) -> Seq<RefView>
    decreases some.len(),
{
    if some.len() == 0 {
        Seq::empty()
    } else {
        tables_checked(ts, wb, some.drop_last()) + table_checked(ts, some.last(), formulas_of(wb, some.last().sheet))
    }
}

/// A reference is counted exactly when it is checked.
pub proof fn lemma_checked_reference(ts: Seq<TableModel>, source: LocationView, r: RefView)
    ensures
        reference_problem_of(ts, source, r).0 == checked_reference(ts, source, r),
{
}

proof fn lemma_formula_checked_count(ts: Seq<TableModel>, source: LocationView, refs: Seq<RefView>)
    ensures
        formula_problems_of(ts, source, refs).1 == refs.filter(checked_by(ts, source)).len(),
    decreases refs.len(),
{
    reveal(Seq::filter);
    if refs.len() > 0 {
        lemma_formula_checked_count(ts, source, refs.drop_last());
        lemma_checked_reference(ts, source, refs.last());
    }
}

proof fn lemma_table_checked_count(ts: Seq<TableModel>, t: TableModel, fs: Seq<(CellRef, Seq<char>)>)
    ensures
        table_problems_of(ts, t, fs).1 == table_checked(ts, t, fs).len(),
    decreases fs.len(),
{
    if fs.len() > 0 {
        lemma_table_checked_count(ts, t, fs.drop_last());
        let (cell, text) = fs.last();
        if let Some(st) = row_student(t.students, cell.row) {
            if cell.col != t.layout.id_column {
                lemma_formula_checked_count(ts, location_of(t.sheet, cell, st), parsed(text).references);
            }
        }
    }
}

/// The number of checked references is the number of references, in formulas of
/// the student rows of the tables other than the id cells, to another sheet with a
/// student table and not in a function such as `OFFSET`.
pub proof fn lemma_reference_count(ts: Seq<TableModel>, wb: Seq<SheetView>, some: Seq<TableModel>)
    ensures
        tables_problems_of(ts, wb, some).1 == tables_checked(ts, wb, some).len(),
    decreases some.len(),
{
    if some.len() > 0 {
        lemma_reference_count(ts, wb, some.drop_last());
        lemma_table_checked_count(ts, some.last(), formulas_of(wb, some.last().sheet));
    }
}

pub open spec fn problem_opt_view(p: Option<Problem>) -> Option<ProblemView> {
    match p {
        Some(p) => Some(p@),
        None => None,
    }
}

impl Checker<'_> {
    pub(super) fn reference_problems(&self) -> (r: (Vec<Problem>, usize))
        ensures
            problems_view(r.0@) == reference_problems_of(tables_view(self.tables@), self.workbook@).0,
            r.1 == saturated(reference_problems_of(tables_view(self.tables@), self.workbook@).1),
    {
        let ghost tv = tables_view(self.tables@);
        let mut r: Vec<Problem> = Vec::new();
        let mut count: usize = 0;
        let mut i: usize = 0;
        while i < self.tables.len()
            invariant
                i <= self.tables.len(),
                tv == tables_view(self.tables@),
                problems_view(r@) == tables_problems_of(tv, self.workbook@, tv.take(i as int)).0,
                count == saturated(tables_problems_of(tv, self.workbook@, tv.take(i as int)).1),
            decreases self.tables.len() - i,
        {
            assert(tv.take(i + 1).drop_last() =~= tv.take(i as int));
            let ghost before = r@;
            let (mut found, n) = self.table_problems(&self.tables[i]);
            let ghost added = found@;
            r.append(&mut found);
            assert(problems_view(r@) =~= problems_view(before) + problems_view(added));
            count = count.saturating_add(n);
            i += 1;
        }
        assert(tv.take(self.tables.len() as int) =~= tv);
        (r, count)
    }

    /// Checks the formulas in the student rows of the table, except the student id cells.
    fn table_problems(&self, table: &StudentTable) -> (r: (Vec<Problem>, usize))
        ensures
            problems_view(r.0@) == table_problems_of(
                tables_view(self.tables@),
                table_model(*table),
                formulas_of(self.workbook@, table.sheet@),
            ).0,
            r.1 == saturated(
                table_problems_of(
                    tables_view(self.tables@),
                    table_model(*table),
                    formulas_of(self.workbook@, table.sheet@),
                ).1,
            ),
    {
        let ghost tv = tables_view(self.tables@);
        let ghost t = table_model(*table);
        let formulas = self.workbook.formulas(table.sheet.as_str());
        let ghost fs = formulas_of(self.workbook@, table.sheet@);
        let mut r: Vec<Problem> = Vec::new();
        let mut count: usize = 0;
        let mut k: usize = 0;
        while k < formulas.len()
            invariant
                k <= formulas.len(),
                tv == tables_view(self.tables@),
                t == table_model(*table),
                fs == formulas@.map_values(|f: (CellRef, String)| (f.0, f.1@)),
                problems_view(r@) == table_problems_of(tv, t, fs.take(k as int)).0,
                count == saturated(table_problems_of(tv, t, fs.take(k as int)).1),
            decreases formulas.len() - k,
        {
            assert(fs.take(k + 1).drop_last() =~= fs.take(k as int));
            assert(fs[k as int] == (formulas@[k as int].0, formulas@[k as int].1@));
            let (cell, text) = (formulas[k].0, &formulas[k].1);
            if let Some(student) = table.student(cell.row) {
                if cell.col != table.layout.id_column {
                    let source = Location::new(table.sheet.as_str(), cell, student);
                    let ghost before = r@;
                    let (mut found, n) = self.formula_problems(&source, text.as_str());
                    let ghost added = found@;
                    r.append(&mut found);
                    assert(problems_view(r@) =~= problems_view(before) + problems_view(added));
                    count = count.saturating_add(n);
                }
            }
            k += 1;
        }
        assert(fs.take(formulas.len() as int) =~= fs);
        (r, count)
    }

    fn formula_problems(&self, source: &Location, text: &str) -> (r: (Vec<Problem>, usize))
        ensures
            problems_view(r.0@) == formula_problems_of(
                tables_view(self.tables@),
                source@,
                parsed(text@).references,
            ).0,
            r.1 == saturated(
                formula_problems_of(tables_view(self.tables@), source@, parsed(text@).references).1,
            ),
    {
        let ghost tv = tables_view(self.tables@);
        let formula = parse(text);
        let ghost refs = parsed(text@).references;
        let mut r: Vec<Problem> = Vec::new();
        let mut count: usize = 0;
        let mut i: usize = 0;
        while i < formula.references.len()
            invariant
                i <= formula.references.len(),
                tv == tables_view(self.tables@),
                refs == formula.references@.map_values(|x: Reference| x@),
                problems_view(r@) == formula_problems_of(tv, source@, refs.take(i as int)).0,
                count == saturated(formula_problems_of(tv, source@, refs.take(i as int)).1),
            decreases formula.references.len() - i,
        {
            assert(refs.take(i + 1).drop_last() =~= refs.take(i as int));
            let (checked, problem) = self.reference_problem(source, &formula.references[i]);
            if let Some(p) = problem {
                let ghost before = r@;
                r.push(p);
                assert(problems_view(r@) =~= problems_view(before) + seq![p@]);
            } else {
                assert(problems_view(r@) + opt_seq(None) =~= problems_view(r@));
            }
            if checked {
                count = count.saturating_add(1);
            }
            i += 1;
        }
        assert(refs.take(formula.references.len() as int) =~= refs);
        (r, count)
    }

    /// The table of the sheet.
    pub(super) fn find_table(&self, sheet: &str) -> (r: Option<&StudentTable>)
        ensures
            match r {
                Some(t) => find_table(tables_view(self.tables@), sheet@) == Some(table_model(*t)),
                None => find_table(tables_view(self.tables@), sheet@) is None,
            },
    {
        let ghost tv = tables_view(self.tables@);
        let mut i: usize = 0;
        assert(tv.skip(0) =~= tv);
        while i < self.tables.len()
            invariant
                i <= self.tables.len(),
                tv == tables_view(self.tables@),
                find_table(tv, sheet@) == find_table(tv.skip(i as int), sheet@),
            decreases self.tables.len() - i,
        {
            assert(tv.skip(i as int).drop_first() =~= tv.skip(i + 1));
            if str_eq(self.tables[i].sheet.as_str(), sheet) {
                return Some(&self.tables[i]);
            }
            i += 1;
        }
        None
    }

    fn reference_problem(&self, source: &Location, reference: &Reference) -> (r: (bool, Option<Problem>))
        ensures
            r.0 == reference_problem_of(tables_view(self.tables@), source@, reference@).0,
            problem_opt_view(r.1) == reference_problem_of(tables_view(self.tables@), source@, reference@).1,
    {
        let sheet = match &reference.sheet {
            Some(sheet) => sheet,
            None => {
                return (false, None);
            },
        };
        if str_eq(sheet.as_str(), source.sheet.as_str()) {
            return (false, None);
        }
        let target = match self.find_table(sheet.as_str()) {
            Some(t) => t,
            None => {
                return (false, None);
            },
        };
        if let Usage::Dynamic = reference.usage {
            return (false, None);
        }
        if reference.range.is_single_row() {
            (true, single_row_problem(source, target, reference.range.start))
        } else {
            (true, multi_row_problem(source, target, reference))
        }
    }
}

fn single_row_problem(source: &Location, target: &StudentTable, cell: CellRef) -> (r: Option<Problem>)
    ensures
        problem_opt_view(r) == single_row_problem_of(source@, table_model(*target), cell),
{
    match target.student(cell.row) {
        None => None,
        Some(student) => mismatch(source, Location::new(target.sheet.as_str(), cell, student)),
    }
}

/// Checks a range over multiple rows. It is a problem if the range spans multiple students,
/// except in lookup functions. A range with only one student is checked like a single cell.
fn multi_row_problem(source: &Location, target: &StudentTable, reference: &Reference) -> (r: Option<
    Problem,
>)
    ensures
        problem_opt_view(r) == multi_row_problem_of(source@, table_model(*target), reference@),
{
    let rows = reference.range.rows();
    let students = target.students_in(rows);
    assert((|row: u32| crate::table::in_rows(rows, row)) =~= (|row: u32|
        reference.range.start.row <= row && row <= reference.range.end.row));
    assert(students@.len() == students@.map_values(|e: (u32, &crate::student::Student)| (e.0, e.1@)).len());
    if students.len() == 0 {
        return None;
    }
    if let Usage::Lookup = reference.usage {
        return None;
    }
    if students.len() == 1 {
        let (row, student) = students[0];
        let cell = CellRef::new(row, reference.range.start.col);
        return mismatch(source, Location::new(target.sheet.as_str(), cell, student));
    }
    Some(
        Problem::MultiStudentRange {
            source: source.clone(),
            target: RangeLocation::new(target.sheet.as_str(), reference.range),
        },
    )
}

fn mismatch(source: &Location, target: Location) -> (r: Option<Problem>)
    ensures
        problem_opt_view(r) == mismatch_of(source@, target@),
{
    if !chars_eq(&chars_of(source.id.0.as_str()), &chars_of(target.id.0.as_str())) {
        Some(Problem::IdMismatch { source: source.clone(), target })
    } else {
        None
    }
}

} // verus!
