//! The notes of checking: the terms and references that the checker skips, for
//! users who want to see what was not checked.
use vstd::prelude::*;
use super::{Checker, TableModel, table_model, tables_view};
use super::references::find_table;
use crate::cell::CellRef;
use crate::formula::{FormulaView, RefView, Reference, Usage, parse, parsed};
use crate::problem::LocationView;
use crate::student::StudentView;
use crate::table::{StudentTable, row_student, students_where};
use crate::text::{append, chars_of, str_eq, string_of};
use crate::workbook::{SheetView, formulas_of};

verus! {

/// A note about what the checker skipped.
#[derive(Debug, PartialEq, Eq)]
pub enum Note {
    /// A term or a reference that is not checked (e.g., a named range).
    Info(String),
    /// A reference in a lookup function, whose range is not checked.
    Debug(String),
}

/// The model of a note.
pub enum NoteView {
    Info(Seq<char>),
    Debug(Seq<char>),
}

impl View for Note {
    type V = NoteView;

    open spec fn view(&self) -> NoteView {
        match self {
            Note::Info(t) => NoteView::Info(t@),
            Note::Debug(t) => NoteView::Debug(t@),
        }
    }
}

pub open spec fn notes_view(ns: Seq<Note>) -> Seq<NoteView> {
    ns.map_values(|n: Note| n@)
}

/// `<sheet>!<cell>` of the source.
pub open spec fn source_text(source: LocationView) -> Seq<char> {
    source.sheet + "!"@ + source.cell.a1()
}

/// The notes of the terms that cannot be resolved statically.
pub open spec fn term_notes(source: LocationView, terms: Seq<Seq<char>>) -> Seq<NoteView>
    decreases terms.len(),
{
    if terms.len() == 0 {
        Seq::empty()
    } else {
        term_notes(source, terms.drop_last()).push(
            NoteView::Info(
                source_text(source) + ": skipped `"@ + terms.last() + "' (not resolvable statically)"@,
            ),
        )
    }
}

/// The note of a checked reference that is skipped: a cell in a non-student row,
/// or a range of a lookup function.
pub open spec fn reference_note_of(ts: Seq<TableModel>, source: LocationView, r: RefView) -> Option<
    NoteView,
> {
    match r.sheet {
        None => None,
        Some(sheet) => if sheet == source.sheet {
            None
        } else {
            match find_table(ts, sheet) {
                None => None,
                Some(target) => if r.usage == Usage::Dynamic {
                    None
                } else if r.range.start.row == r.range.end.row {
                    if row_student(target.students, r.range.start.row) is None {
                        Some(
                            NoteView::Info(
                                source_text(source) + " -> "@ + target.sheet + "!"@ + r.range.start.a1()
                                    + ": references a non-student row"@,
                            ),
                        )
                    } else {
                        None
                    }
                } else if r.usage == Usage::Lookup && students_where(
                    target.students,
                    |row: u32| r.range.start.row <= row && row <= r.range.end.row,
                ).len() > 0 {
                    Some(
                        NoteView::Debug(
                            source_text(source) + ": skipped the lookup range "@ + target.sheet + "!"@
                                + r.range.a1(),
                        ),
                    )
                } else {
                    None
                },
            }
        },
    }
}

/// The notes of the references, in order.
pub open spec fn reference_notes(ts: Seq<TableModel>, source: LocationView, refs: Seq<RefView>) -> Seq<
    NoteView,
>
    decreases refs.len(),
{
    if refs.len() == 0 {
        Seq::empty()
    } else {
        let prev = reference_notes(ts, source, refs.drop_last());
        match reference_note_of(ts, source, refs.last()) {
            Some(n) => prev.push(n),
            None => prev,
        }
    }
}

/// The notes of a formula: its unresolved terms, then its skipped references.
pub open spec fn formula_notes_of(ts: Seq<TableModel>, source: LocationView, f: FormulaView) -> Seq<
    NoteView,
> {
    term_notes(source, f.unresolved) + reference_notes(ts, source, f.references)
}

/// The notes of the formulas of the student rows of the table (except the student
/// id cells).
pub open spec fn table_notes_of(ts: Seq<TableModel>, t: TableModel, fs: Seq<(CellRef, Seq<char>)>) -> Seq<
    NoteView,
>
    decreases fs.len(),
{
    if fs.len() == 0 {
        Seq::empty()
    } else {
        let prev = table_notes_of(ts, t, fs.drop_last());
        let (cell, text) = fs.last();
        match row_student(t.students, cell.row) {
            None => prev,
            Some(s) => if cell.col == t.layout.id_column {
                prev
            } else {
                prev + formula_notes_of(
                    ts,
                    LocationView { sheet: t.sheet, cell, id: s.id, name: s.name },
                    parsed(text),
                )
            },
        }
    }
}

/// The notes of the tables in `some`, with the tables `ts` as targets.
pub open spec fn tables_notes_of(ts: Seq<TableModel>, wb: Seq<SheetView>, some: Seq<TableModel>) -> Seq<
    NoteView,
>
    decreases some.len(),
{
    if some.len() == 0 {
        Seq::empty()
    } else {
        tables_notes_of(ts, wb, some.drop_last()) + table_notes_of(
            ts,
            some.last(),
            formulas_of(wb, some.last().sheet),
        )
    }
}

/// The notes of checking the references from the student rows.
pub open spec fn check_notes_of(ts: Seq<TableModel>, wb: Seq<SheetView>) -> Seq<NoteView> {
    tables_notes_of(ts, wb, ts)
}

fn push_source(t: &mut Vec<char>, sheet: &str, cell: CellRef)
    ensures
        final(t)@ == old(t)@ + sheet@ + "!"@ + cell.a1(),
{
    append(t, &chars_of(sheet));
    append(t, &chars_of("!"));
    append(t, &cell.to_chars());
}

impl Checker<'_> {
    /// The notes about the terms and the references that the checker skips.
    pub fn notes(&self) -> (r: Vec<Note>)
        ensures
            notes_view(r@) == check_notes_of(tables_view(self.tables@), self.workbook@),
    {
        let ghost tv = tables_view(self.tables@);
        let mut r: Vec<Note> = Vec::new();
        let mut i: usize = 0;
        while i < self.tables.len()
            invariant
                i <= self.tables.len(),
                tv == tables_view(self.tables@),
                notes_view(r@) == tables_notes_of(tv, self.workbook@, tv.take(i as int)),
            decreases self.tables.len() - i,
        {
            assert(tv.take(i + 1).drop_last() =~= tv.take(i as int));
            let ghost before = r@;
            let mut found = self.table_notes(&self.tables[i]);
            let ghost added = found@;
            r.append(&mut found);
            assert(notes_view(r@) =~= notes_view(before) + notes_view(added));
            i += 1;
        }
        assert(tv.take(self.tables.len() as int) =~= tv);
        r
    }

    fn table_notes(&self, table: &StudentTable) -> (r: Vec<Note>)
        ensures
            notes_view(r@) == table_notes_of(
                tables_view(self.tables@),
                table_model(*table),
                formulas_of(self.workbook@, table.sheet@),
            ),
    {
        let ghost tv = tables_view(self.tables@);
        let ghost t = table_model(*table);
        let formulas = self.workbook.formulas(table.sheet.as_str());
        let ghost fs = formulas_of(self.workbook@, table.sheet@);
        let mut r: Vec<Note> = Vec::new();
        let mut k: usize = 0;
        while k < formulas.len()
            invariant
                k <= formulas.len(),
                tv == tables_view(self.tables@),
                t == table_model(*table),
                fs == formulas@.map_values(|f: (CellRef, String)| (f.0, f.1@)),
                notes_view(r@) == table_notes_of(tv, t, fs.take(k as int)),
            decreases formulas.len() - k,
        {
            assert(fs.take(k + 1).drop_last() =~= fs.take(k as int));
            assert(fs[k as int] == (formulas@[k as int].0, formulas@[k as int].1@));
            let (cell, text) = (formulas[k].0, &formulas[k].1);
            if let Some(student) = table.student(cell.row) {
                if cell.col != table.layout.id_column {
                    let ghost before = r@;
                    let ghost source = LocationView {
                        sheet: table.sheet@,
                        cell,
                        id: student@.id,
                        name: student@.name,
                    };
                    let mut found = self.formula_notes(table.sheet.as_str(), cell, Ghost(source), text.as_str());
                    let ghost added = found@;
                    r.append(&mut found);
                    assert(notes_view(r@) =~= notes_view(before) + notes_view(added));
                }
            }
            k += 1;
        }
        assert(fs.take(formulas.len() as int) =~= fs);
        r
    }

    fn formula_notes(&self, sheet: &str, cell: CellRef, Ghost(source): Ghost<LocationView>, text: &str) -> (r:
        Vec<Note>)
        requires
            source.sheet == sheet@,
            source.cell == cell,
        ensures
            notes_view(r@) == formula_notes_of(tables_view(self.tables@), source, parsed(text@)),
    {
        let ghost tv = tables_view(self.tables@);
        let formula = parse(text);
        let ghost terms = parsed(text@).unresolved;
        let ghost refs = parsed(text@).references;
        let mut r: Vec<Note> = Vec::new();
        let mut i: usize = 0;
        while i < formula.unresolved.len()
            invariant
                i <= formula.unresolved.len(),
                source.sheet == sheet@,
                source.cell == cell,
                terms == formula.unresolved@.map_values(|u: String| u@),
                notes_view(r@) == term_notes(source, terms.take(i as int)),
            decreases formula.unresolved.len() - i,
        {
            assert(terms.take(i + 1).drop_last() =~= terms.take(i as int));
            let mut t: Vec<char> = Vec::new();
            push_source(&mut t, sheet, cell);
            append(&mut t, &chars_of(": skipped `"));
            append(&mut t, &chars_of(formula.unresolved[i].as_str()));
            append(&mut t, &chars_of("' (not resolvable statically)"));
            let ghost before = r@;
            r.push(Note::Info(string_of(&t)));
            assert(notes_view(r@) =~= notes_view(before).push(notes_view(r@).last()));
            i += 1;
        }
        assert(terms.take(formula.unresolved.len() as int) =~= terms);
        let ghost after_terms = r@;
        let mut j: usize = 0;
        while j < formula.references.len()
            invariant
                j <= formula.references.len(),
                source.sheet == sheet@,
                source.cell == cell,
                tv == tables_view(self.tables@),
                refs == formula.references@.map_values(|x: Reference| x@),
                notes_view(r@) == notes_view(after_terms) + reference_notes(tv, source, refs.take(j as int)),
            decreases formula.references.len() - j,
        {
            assert(refs.take(j + 1).drop_last() =~= refs.take(j as int));
            let ghost before = r@;
            if let Some(n) = self.reference_note(sheet, cell, Ghost(source), &formula.references[j]) {
                r.push(n);
                assert(notes_view(r@) =~= notes_view(before).push(n@));
            }
            j += 1;
        }
        assert(refs.take(formula.references.len() as int) =~= refs);
        r
    }

    fn reference_note(
        &self,
        sheet: &str,
        cell: CellRef,
        Ghost(source): Ghost<LocationView>,
        reference: &Reference,
    ) -> (r: Option<Note>)
        requires
            source.sheet == sheet@,
            source.cell == cell,
        ensures
            match r {
                Some(n) => reference_note_of(tables_view(self.tables@), source, reference@) == Some(n@),
                None => reference_note_of(tables_view(self.tables@), source, reference@) is None,
            },
    {
        let target_sheet = match &reference.sheet {
            Some(s) => s,
            None => {
                return None;
            },
        };
        if str_eq(target_sheet.as_str(), sheet) {
            return None;
        }
        let target = match self.find_table(target_sheet.as_str()) {
            Some(t) => t,
            None => {
                return None;
            },
        };
        if let Usage::Dynamic = reference.usage {
            return None;
        }
        let range = reference.range;
        let mut t: Vec<char> = Vec::new();
        push_source(&mut t, sheet, cell);
        if range.is_single_row() {
            if target.student(range.start.row).is_some() {
                return None;
            }
            append(&mut t, &chars_of(" -> "));
            push_source(&mut t, target.sheet.as_str(), range.start);
            append(&mut t, &chars_of(": references a non-student row"));
            return Some(Note::Info(string_of(&t)));
        }
        if let Usage::Lookup = reference.usage {
            let rows = range.rows();
            let students = target.students_in(rows);
            assert((|row: u32| crate::table::in_rows(rows, row)) =~= (|row: u32|
                range.start.row <= row && row <= range.end.row));
            if students.len() > 0 {
                append(&mut t, &chars_of(": skipped the lookup range "));
                append(&mut t, &chars_of(target.sheet.as_str()));
                append(&mut t, &chars_of("!"));
                append(&mut t, &range.to_chars());
                return Some(Note::Debug(string_of(&t)));
            }
        }
        None
    }
}

} // verus!
