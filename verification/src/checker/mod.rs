//! Checks the cross-sheet references with the config.
//!
//! The checker reads the student table of each student sheet in both the config and
//! the workbook. Then it reports the sheets which are only in one of them, the
//! student ids outside the tables, the ids in more than one row, and the
//! references from student rows to rows of other students.
use vstd::prelude::*;
use crate::config::{Config, SheetConfig, TableLayout, lemma_student_sheets, student_sheets_of};
use crate::formula::{RefView, Usage, parsed};
use crate::problem::{LocationView, Problem, ProblemView, RangeLocationView, Summary, problems_view};
use crate::student::{IdPattern, StudentView};
use crate::table::{
    RowReader,
    StudentTable,
    duplicates_of,
    id_at,
    lemma_students_below,
    rows_increasing,
    multi_groups,
    row_student,
    students_where,
    table_students,
    unresolved_inside_of,
    unresolved_outside_of,
    unresolved_warnings,
};
use crate::text::{chars_lt, entries_view, keys_sorted, lemma_lt_asymmetric, lookup, strings_view};
use crate::workbook::{SheetView, Workbook, formulas_of, has_sheet, rows_of};
use crate::cell::CellRef;

mod consistency;
mod notes;
mod references;

pub use consistency::{
    duplicate_problems_of,
    lemma_duplicate_problems_kind,
    lemma_missing_sheets_complete,
    lemma_missing_sheets_kind,
    lemma_no_missing_sheets,
    lemma_no_unknown_sheets,
    lemma_outside_ids_complete,
    lemma_outside_ids_sound,
    lemma_outside_problems_kind,
    lemma_unknown_sheets_complete,
    lemma_unknown_sheets_sound,
    lemma_unknown_sheets_kind,
    missing_sheets,
    outside_id_in,
    outside_problems_of,
    sheet_problems_of,
    unknown_sheets,
};
pub use notes::{Note, NoteView, check_notes_of, notes_view};
pub use references::{
    checked_by,
    checked_reference,
    from_source,
    from_table,
    lemma_checked_reference,
    lemma_one_student_range,
    lemma_reference_count,
    lemma_reference_problems_from_tables,
    lemma_table_problems_from_table,
    lemma_unchecked_references,
    reference_problems_of,
    saturated,
    source_in_table,
    table_problems_of,
    table_checked,
    tables_checked,
    tables_problems_of,
};

verus! {

/// The model of a student table: the sheet, the layout, and the student rows.
pub struct TableModel {
    pub sheet: Seq<char>,
    pub layout: TableLayout,
    pub students: Seq<(u32, StudentView)>,
}

pub open spec fn table_model(t: StudentTable) -> TableModel {
    TableModel { sheet: t.sheet@, layout: t.layout, students: t@ }
}

pub open spec fn tables_view(ts: Seq<StudentTable>) -> Seq<TableModel> {
    ts.map_values(|t: StudentTable| table_model(t))
}

/// The student tables of the student sheets (in the order of their names) which
/// are in the workbook.
pub open spec fn tables_of(
    wb: Seq<SheetView>,
    sheets: Seq<(Seq<char>, TableLayout)>,
    pattern: Seq<char>,
) -> Seq<TableModel>
    decreases sheets.len(),
{
    if sheets.len() == 0 {
        Seq::empty()
    } else {
        let prev = tables_of(wb, sheets.drop_last(), pattern);
        let (name, layout) = sheets.last();
        if has_sheet(wb, name) {
            prev.push(
                TableModel { sheet: name, layout, students: table_students(wb, name, pattern, layout) },
            )
        } else {
            prev
        }
    }
}

/// The student tables that the checker reads for the workbook and the config.
pub open spec fn checked_tables(wb: Seq<SheetView>, config: Config, pattern: Seq<char>) -> Seq<
    TableModel,
> {
    tables_of(wb, student_sheets_of(config.sheets_view()), pattern)
}

/// All the problems of the workbook: the sheets in only one of the workbook and
/// the config, the student ids outside the tables, the ids in more than one row,
/// and the references to rows of other students.
pub open spec fn problems_of(wb: Seq<SheetView>, config: Config, pattern: Seq<char>) -> Seq<
    ProblemView,
> {
    let tables = checked_tables(wb, config, pattern);
    sheet_problems_of(wb, config.sheets_view()) + outside_problems_of(wb, pattern, tables)
        + duplicate_problems_of(tables) + reference_problems_of(tables, wb).0
}

/// The summary of checking the workbook with the problems.
pub open spec fn summary_of(wb: Seq<SheetView>, config: Config, pattern: Seq<char>) -> Summary {
    let tables = checked_tables(wb, config, pattern);
    Summary {
        sheets: tables.len() as usize,
        references: saturated(reference_problems_of(tables, wb).1),
        problems: problems_of(wb, config, pattern).len() as usize,
    }
}

/// The warnings about the student ids which cannot be resolved in the tables, or
/// outside them (`outside`), table by table.
pub open spec fn unresolved_of(wb: Seq<SheetView>, ts: Seq<TableModel>, outside: bool) -> Seq<Seq<char>>
    decreases ts.len(),
{
    if ts.len() == 0 {
        Seq::empty()
    } else {
        unresolved_of(wb, ts.drop_last(), outside) + if outside {
            unresolved_outside_of(wb, ts.last().sheet, ts.last().layout)
        } else {
            unresolved_inside_of(wb, ts.last().sheet, ts.last().layout)
        }
    }
}

/// The warnings of checking: the student ids which cannot be resolved in the
/// tables, and then those outside the tables.
pub open spec fn check_warnings_of(wb: Seq<SheetView>, ts: Seq<TableModel>) -> Seq<Seq<char>> {
    unresolved_of(wb, ts, false) + unresolved_of(wb, ts, true)
}

/// Each table is that of a student sheet that the workbook has.
proof fn lemma_tables_source(wb: Seq<SheetView>, ss: Seq<(Seq<char>, TableLayout)>, pattern: Seq<char>)
    ensures
        forall|j: int|
            0 <= j < tables_of(wb, ss, pattern).len() ==> exists|i: int|
                0 <= i < ss.len() && #[trigger] ss[i].0 == #[trigger] tables_of(wb, ss, pattern)[j].sheet
                    && has_sheet(wb, ss[i].0),
    decreases ss.len(),
{
    if ss.len() > 0 {
        let p = ss.drop_last();
        lemma_tables_source(wb, p, pattern);
        let q = tables_of(wb, p, pattern);
        let out = tables_of(wb, ss, pattern);
        let n = ss.len() - 1;
        assert(ss.last() == ss[n]);
        if has_sheet(wb, ss[n].0) {
            assert(out.len() == q.len() + 1 && out.last().sheet == ss[n].0);
        } else {
            assert(out == q);
        }
        assert forall|j: int| 0 <= j < out.len() implies exists|i: int|
            0 <= i < ss.len() && #[trigger] ss[i].0 == #[trigger] out[j].sheet && has_sheet(wb, ss[i].0) by {
            if j < q.len() {
                assert(out[j] == q[j]);
                let i = choose|i: int|
                    0 <= i < p.len() && #[trigger] p[i].0 == #[trigger] q[j].sheet && has_sheet(wb, p[i].0);
                assert(ss[i] == p[i]);
            } else {
                assert(out[j].sheet == ss[n].0);
            }
        }
    }
}

/// Each student sheet that the workbook has has its table.
proof fn lemma_tables_complete(wb: Seq<SheetView>, ss: Seq<(Seq<char>, TableLayout)>, pattern: Seq<char>)
    ensures
        forall|i: int|
            0 <= i < ss.len() && has_sheet(wb, #[trigger] ss[i].0) ==> exists|j: int|
                0 <= j < tables_of(wb, ss, pattern).len() && #[trigger] tables_of(wb, ss, pattern)[j].sheet
                    == ss[i].0,
    decreases ss.len(),
{
    if ss.len() > 0 {
        let p = ss.drop_last();
        lemma_tables_complete(wb, p, pattern);
        let q = tables_of(wb, p, pattern);
        let out = tables_of(wb, ss, pattern);
        let n = ss.len() - 1;
        assert(ss.last() == ss[n]);
        if has_sheet(wb, ss[n].0) {
            assert(out.len() == q.len() + 1 && out.last().sheet == ss[n].0);
            assert(forall|j: int| 0 <= j < q.len() ==> out[j] == q[j]);
        } else {
            assert(out == q);
        }
        assert forall|i: int| 0 <= i < ss.len() && has_sheet(wb, #[trigger] ss[i].0) implies exists|j: int|
            0 <= j < out.len() && #[trigger] out[j].sheet == ss[i].0 by {
            if i < n {
                assert(p[i] == ss[i]);
                let j = choose|j: int| 0 <= j < q.len() && #[trigger] q[j].sheet == p[i].0;
                assert(out[j] == q[j]);
            } else {
                assert(out[out.len() - 1].sheet == ss[n].0);
            }
        }
    }
}

/// The tables keep the order of the names of the student sheets.
proof fn lemma_tables_sorted(wb: Seq<SheetView>, ss: Seq<(Seq<char>, TableLayout)>, pattern: Seq<char>)
    requires
        keys_sorted(ss),
    ensures
        forall|a: int, b: int|
            0 <= a < b < tables_of(wb, ss, pattern).len() ==> chars_lt(
                #[trigger] tables_of(wb, ss, pattern)[a].sheet,
                #[trigger] tables_of(wb, ss, pattern)[b].sheet,
            ),
    decreases ss.len(),
{
    if ss.len() > 0 {
        let p = ss.drop_last();
        assert(keys_sorted(p)) by {
            assert forall|a: int, b: int| 0 <= a < b < p.len() implies chars_lt(
                #[trigger] p[a].0,
                #[trigger] p[b].0,
            ) by {
                assert(p[a] == ss[a] && p[b] == ss[b]);
            }
        }
        lemma_tables_sorted(wb, p, pattern);
        lemma_tables_source(wb, p, pattern);
        let q = tables_of(wb, p, pattern);
        let out = tables_of(wb, ss, pattern);
        let n = ss.len() - 1;
        assert(ss.last() == ss[n]);
        if has_sheet(wb, ss[n].0) {
            assert(out.len() == q.len() + 1 && out.last().sheet == ss[n].0);
            assert forall|a: int, b: int| 0 <= a < b < out.len() implies chars_lt(
                #[trigger] out[a].sheet,
                #[trigger] out[b].sheet,
            ) by {
                assert(out[a] == q[a]);
                if b < q.len() {
                    assert(out[b] == q[b]);
                } else {
                    let i = choose|i: int|
                        0 <= i < p.len() && #[trigger] p[i].0 == #[trigger] q[a].sheet && has_sheet(wb, p[i].0);
                    assert(ss[i] == p[i]);
                    assert(out[b].sheet == ss[n].0);
                    assert(chars_lt(ss[i].0, ss[n].0));
                }
            }
        } else {
            assert(out == q);
        }
    }
}

/// The sheets that the checker reads: those which the config gives a student
/// table and which the workbook has.
pub open spec fn student_sheet_names(wb: Seq<SheetView>, config: Config) -> Set<Seq<char>> {
    Set::new(
        |n: Seq<char>|
            (lookup(config.sheets_view(), n) matches Some(SheetConfig::Student(_))) && has_sheet(wb, n),
    )
}

/// The summary counts each sheet with a student table in both the config and the
/// workbook once: the number of sheets is the size of that set of names, and the
/// number of problems is the number of problems reported.
pub proof fn lemma_summary_counts(wb: Seq<SheetView>, config: Config, pattern: Seq<char>)
    requires
        config.wf(),
    ensures
        checked_tables(wb, config, pattern).len() == student_sheet_names(wb, config).len(),
        summary_of(wb, config, pattern).sheets == checked_tables(wb, config, pattern).len() as usize,
        summary_of(wb, config, pattern).problems == problems_of(wb, config, pattern).len() as usize,
{
    let ss = student_sheets_of(config.sheets_view());
    let ts = checked_tables(wb, config, pattern);
    let names = ts.map_values(|t: TableModel| t.sheet);
    lemma_student_sheets(config);
    lemma_tables_source(wb, ss, pattern);
    lemma_tables_complete(wb, ss, pattern);
    lemma_tables_sorted(wb, ss, pattern);
    assert(names.no_duplicates()) by {
        assert forall|a: int, b: int| 0 <= a < names.len() && 0 <= b < names.len() && a != b implies names[a]
            != names[b] by {
            if a < b {
                assert(chars_lt(ts[a].sheet, ts[b].sheet));
                lemma_lt_asymmetric(ts[a].sheet, ts[b].sheet);
            } else {
                assert(chars_lt(ts[b].sheet, ts[a].sheet));
                lemma_lt_asymmetric(ts[b].sheet, ts[a].sheet);
            }
        }
    }
    names.unique_seq_to_set();
    assert(names.to_set() =~= student_sheet_names(wb, config)) by {
        assert forall|n: Seq<char>| names.to_set().contains(n) implies student_sheet_names(wb, config).contains(
            n,
        ) by {
            let j = choose|j: int| 0 <= j < names.len() && names[j] == n;
            assert(names[j] == ts[j].sheet);
            let i = choose|i: int| 0 <= i < ss.len() && #[trigger] ss[i].0 == #[trigger] ts[j].sheet && has_sheet(wb, ss[i].0);
            assert(lookup(config.sheets_view(), ss[i].0) == Some(SheetConfig::Student(ss[i].1)));
        }
        assert forall|n: Seq<char>| student_sheet_names(wb, config).contains(n) implies names.to_set().contains(
            n,
        ) by {
            if let Some(SheetConfig::Student(layout)) = lookup(config.sheets_view(), n) {
                assert(lookup(config.sheets_view(), n) matches Some(SheetConfig::Student(layout)));
                let i = choose|i: int| 0 <= i < ss.len() && #[trigger] ss[i] == (n, layout);
                assert(ss[i].0 == n);
                assert(has_sheet(wb, ss[i].0));
                let j = choose|j: int| 0 <= j < ts.len() && #[trigger] ts[j].sheet == ss[i].0;
                assert(names[j] == n);
            }
        }
    }
}

/// What checking reports, group by group: first the sheets that only the workbook
/// has (in the workbook order), then those that only the config has, then the ids
/// outside the tables, then the duplicated ids, then the problems of references
/// from student rows. The summary counts the sheets with a student table in both
/// the config and the workbook, the checked references (those to another sheet
/// with a student table, not in a function such as `OFFSET`, from formulas of
/// student rows other than the id cells), and the problems.
pub proof fn lemma_run_report(wb: Seq<SheetView>, config: Config, pattern: Seq<char>)
    requires
        config.wf(),
    ensures
        problems_of(wb, config, pattern) == sheet_problems_of(wb, config.sheets_view()) + outside_problems_of(
            wb,
            pattern,
            checked_tables(wb, config, pattern),
        ) + duplicate_problems_of(checked_tables(wb, config, pattern)) + reference_problems_of(
            checked_tables(wb, config, pattern),
            wb,
        ).0,
        forall|i: int|
            0 <= i < sheet_problems_of(wb, config.sheets_view()).len() ==> (#[trigger] sheet_problems_of(
                wb,
                config.sheets_view(),
            )[i] is UnknownSheet || sheet_problems_of(wb, config.sheets_view())[i] is MissingSheet),
        forall|i: int, j: int|
            0 <= i < j < sheet_problems_of(wb, config.sheets_view()).len() && #[trigger] sheet_problems_of(
                wb,
                config.sheets_view(),
            )[j] is UnknownSheet ==> #[trigger] sheet_problems_of(wb, config.sheets_view())[i] is UnknownSheet,
        forall|i: int|
            0 <= i < outside_problems_of(wb, pattern, checked_tables(wb, config, pattern)).len()
                ==> #[trigger] outside_problems_of(wb, pattern, checked_tables(wb, config, pattern))[i] is IdOutsideTable,
        forall|i: int|
            0 <= i < duplicate_problems_of(checked_tables(wb, config, pattern)).len()
                ==> #[trigger] duplicate_problems_of(checked_tables(wb, config, pattern))[i] is DuplicatedId,
        forall|i: int|
            0 <= i < reference_problems_of(checked_tables(wb, config, pattern), wb).0.len() ==> exists|k: int|
                0 <= k < checked_tables(wb, config, pattern).len() && from_table(
                    #[trigger] reference_problems_of(checked_tables(wb, config, pattern), wb).0[i],
                    checked_tables(wb, config, pattern)[k],
                ),
        summary_of(wb, config, pattern).sheets == student_sheet_names(wb, config).len() as usize,
        summary_of(wb, config, pattern).references == saturated(
            tables_checked(checked_tables(wb, config, pattern), wb, checked_tables(wb, config, pattern)).len(),
        ),
        summary_of(wb, config, pattern).problems == problems_of(wb, config, pattern).len() as usize,
{
    let ts = checked_tables(wb, config, pattern);
    let sheets = config.sheets_view();
    let names = wb.map_values(|s: SheetView| s.name);
    let u = unknown_sheets(names, sheets);
    let m = missing_sheets(wb, sheets);
    let a = sheet_problems_of(wb, sheets);
    lemma_unknown_sheets_kind(names, sheets);
    lemma_missing_sheets_kind(wb, sheets);
    assert(a == u + m);
    assert forall|i: int| 0 <= i < a.len() implies (#[trigger] a[i] is UnknownSheet || a[i] is MissingSheet) by {
        if i < u.len() {
            assert(a[i] == u[i]);
        } else {
            assert(a[i] == m[i - u.len()]);
        }
    }
    assert forall|i: int, j: int| 0 <= i < j < a.len() && #[trigger] a[j] is UnknownSheet implies #[trigger] a[i] is UnknownSheet by {
        if j >= u.len() {
            assert(a[j] == m[j - u.len()]);
        } else {
            assert(a[i] == u[i] && a[j] == u[j]);
        }
    }
    lemma_outside_problems_kind(wb, pattern, ts);
    lemma_duplicate_problems_kind(ts);
    lemma_reference_problems_from_tables(ts, wb, ts);
    lemma_reference_count(ts, wb, ts);
    lemma_summary_counts(wb, config, pattern);
}

// ---------------------------------------------------------------------------
// The laws of checking.

/// A problem is well-founded: a mismatch is between two different students, and a
/// duplicated id has at least two cells.
pub open spec fn problem_sound(p: ProblemView) -> bool {
    match p {
        ProblemView::IdMismatch { source, target } => source.id != target.id,
        ProblemView::DuplicatedId { cells, .. } => cells.len() > 1,
        _ => true,
    }
}

pub open spec fn problems_sound(ps: Seq<ProblemView>) -> bool {
    forall|i: int| 0 <= i < ps.len() ==> problem_sound(#[trigger] ps[i])
}

proof fn lemma_sound_concat(a: Seq<ProblemView>, b: Seq<ProblemView>)
    requires
        problems_sound(a),
        problems_sound(b),
    ensures
        problems_sound(a + b),
{
    assert forall|i: int| 0 <= i < (a + b).len() implies problem_sound(#[trigger] (a + b)[i]) by {
        if i < a.len() {
            assert((a + b)[i] == a[i]);
        } else {
            assert((a + b)[i] == b[i - a.len()]);
        }
    }
}

proof fn lemma_sound_push(a: Seq<ProblemView>, p: ProblemView)
    requires
        problems_sound(a),
        problem_sound(p),
    ensures
        problems_sound(a.push(p)),
{
    assert(a.push(p) =~= a + seq![p]);
    assert(problems_sound(seq![p])) by {
        assert forall|i: int| 0 <= i < seq![p].len() implies problem_sound(#[trigger] seq![p][i]) by {
            assert(seq![p][i] == p);
        }
    }
    lemma_sound_concat(a, seq![p]);
}

proof fn lemma_unknown_sound(names: Seq<Seq<char>>, sheets: Seq<(Seq<char>, crate::config::SheetConfig)>)
    ensures
        problems_sound(consistency::unknown_sheets(names, sheets)),
    decreases names.len(),
{
    if names.len() > 0 {
        lemma_unknown_sound(names.drop_last(), sheets);
        if crate::text::lookup(sheets, names.last()) is None {
            lemma_sound_push(
                consistency::unknown_sheets(names.drop_last(), sheets),
                ProblemView::UnknownSheet { sheet: names.last() },
            );
        }
    }
}

proof fn lemma_missing_sound(wb: Seq<SheetView>, sheets: Seq<(Seq<char>, crate::config::SheetConfig)>)
    ensures
        problems_sound(consistency::missing_sheets(wb, sheets)),
    decreases sheets.len(),
{
    if sheets.len() > 0 {
        lemma_missing_sound(wb, sheets.drop_last());
        if !has_sheet(wb, sheets.last().0) {
            lemma_sound_push(
                consistency::missing_sheets(wb, sheets.drop_last()),
                ProblemView::MissingSheet { sheet: sheets.last().0 },
            );
        }
    }
}

proof fn lemma_outside_rows_sound(wb: Seq<SheetView>, pattern: Seq<char>, t: TableModel, first: int, end: int)
    ensures
        problems_sound(consistency::outside_rows(wb, pattern, t, first, end)),
    decreases end - first,
{
    if end > first {
        lemma_outside_rows_sound(wb, pattern, t, first, end - 1);
        let prev = consistency::outside_rows(wb, pattern, t, first, end - 1);
        let cur = consistency::outside_rows(wb, pattern, t, first, end);
        if cur != prev {
            assert(cur.len() == prev.len() + 1 && cur.drop_last() =~= prev);
            assert(cur =~= prev.push(cur.last()));
            lemma_sound_push(prev, cur.last());
        }
    }
}

proof fn lemma_outside_sound(wb: Seq<SheetView>, pattern: Seq<char>, ts: Seq<TableModel>)
    ensures
        problems_sound(outside_problems_of(wb, pattern, ts)),
    decreases ts.len(),
{
    if ts.len() > 0 {
        lemma_outside_sound(wb, pattern, ts.drop_last());
        if let Some((first, last)) = crate::workbook::rows_of(wb, ts.last().sheet) {
            lemma_outside_rows_sound(wb, pattern, ts.last(), first as int, last + 1);
        }
        lemma_sound_concat(
            outside_problems_of(wb, pattern, ts.drop_last()),
            consistency::ids_outside_of(wb, pattern, ts.last()),
        );
    }
}

proof fn lemma_multi_groups(g: Seq<(Seq<char>, Seq<crate::cell::CellRef>)>)
    ensures
        forall|i: int| 0 <= i < multi_groups(g).len() ==> (#[trigger] multi_groups(g)[i]).1.len() > 1,
    decreases g.len(),
{
    if g.len() > 0 {
        lemma_multi_groups(g.drop_last());
        let prev = multi_groups(g.drop_last());
        if g.last().1.len() > 1 {
            let cur = multi_groups(g);
            assert forall|i: int| 0 <= i < cur.len() implies (#[trigger] cur[i]).1.len() > 1 by {
                if i < prev.len() {
                    assert(cur[i] == prev[i]);
                }
            }
        }
    }
}

proof fn lemma_duplicates_sound(ts: Seq<TableModel>)
    ensures
        problems_sound(duplicate_problems_of(ts)),
    decreases ts.len(),
{
    if ts.len() > 0 {
        lemma_duplicates_sound(ts.drop_last());
        let t = ts.last();
        lemma_multi_groups(crate::table::id_groups(t.students, t.layout.id_column));
        let d = consistency::duplicated_ids_of(t);
        assert forall|i: int| 0 <= i < d.len() implies problem_sound(#[trigger] d[i]) by {
            assert(duplicates_of(t.students, t.layout.id_column)[i].1.len() > 1);
        }
        lemma_sound_concat(duplicate_problems_of(ts.drop_last()), d);
    }
}

proof fn lemma_formula_sound(ts: Seq<TableModel>, source: LocationView, refs: Seq<RefView>)
    ensures
        problems_sound(references::formula_problems_of(ts, source, refs).0),
    decreases refs.len(),
{
    if refs.len() > 0 {
        lemma_formula_sound(ts, source, refs.drop_last());
        let prev = references::formula_problems_of(ts, source, refs.drop_last()).0;
        let p = references::reference_problem_of(ts, source, refs.last()).1;
        let extra = references::opt_seq(p);
        assert(problems_sound(extra)) by {
            assert forall|i: int| 0 <= i < extra.len() implies problem_sound(#[trigger] extra[i]) by {
                assert(extra[i] == p->0);
            }
        }
        lemma_sound_concat(prev, extra);
    }
}

proof fn lemma_table_sound(ts: Seq<TableModel>, t: TableModel, fs: Seq<(crate::cell::CellRef, Seq<char>)>)
    ensures
        problems_sound(references::table_problems_of(ts, t, fs).0),
    decreases fs.len(),
{
    if fs.len() > 0 {
        lemma_table_sound(ts, t, fs.drop_last());
        let (cell, text) = fs.last();
        if let Some(s) = row_student(t.students, cell.row) {
            if cell.col != t.layout.id_column {
                let source = references::location_of(t.sheet, cell, s);
                lemma_formula_sound(ts, source, parsed(text).references);
                lemma_sound_concat(
                    references::table_problems_of(ts, t, fs.drop_last()).0,
                    references::formula_problems_of(ts, source, parsed(text).references).0,
                );
            }
        }
    }
}

proof fn lemma_tables_sound(ts: Seq<TableModel>, wb: Seq<SheetView>, some: Seq<TableModel>)
    ensures
        problems_sound(references::tables_problems_of(ts, wb, some).0),
    decreases some.len(),
{
    if some.len() > 0 {
        lemma_tables_sound(ts, wb, some.drop_last());
        let t = some.last();
        lemma_table_sound(ts, t, formulas_of(wb, t.sheet));
        lemma_sound_concat(
            references::tables_problems_of(ts, wb, some.drop_last()).0,
            references::table_problems_of(ts, t, formulas_of(wb, t.sheet)).0,
        );
    }
}

/// Every reported mismatch is between two different students, and every
/// duplicated id is reported with at least two cells.
pub proof fn lemma_problems_sound(wb: Seq<SheetView>, config: Config, pattern: Seq<char>)
    ensures
        problems_sound(problems_of(wb, config, pattern)),
{
    let tables = checked_tables(wb, config, pattern);
    lemma_unknown_sound(wb.map_values(|s: SheetView| s.name), config.sheets_view());
    lemma_missing_sound(wb, config.sheets_view());
    lemma_sound_concat(
        consistency::unknown_sheets(wb.map_values(|s: SheetView| s.name), config.sheets_view()),
        consistency::missing_sheets(wb, config.sheets_view()),
    );
    lemma_outside_sound(wb, pattern, tables);
    lemma_duplicates_sound(tables);
    lemma_tables_sound(tables, wb, tables);
    let a = sheet_problems_of(wb, config.sheets_view());
    let b = outside_problems_of(wb, pattern, tables);
    let c = duplicate_problems_of(tables);
    let d = reference_problems_of(tables, wb).0;
    lemma_sound_concat(a, b);
    lemma_sound_concat(a + b, c);
    lemma_sound_concat(a + b + c, d);
}

proof fn lemma_formula_contains(ts: Seq<TableModel>, source: LocationView, refs: Seq<RefView>, k: int)
    requires
        0 <= k < refs.len(),
        references::reference_problem_of(ts, source, refs[k]).1 is Some,
    ensures
        references::formula_problems_of(ts, source, refs).0.contains(
            references::reference_problem_of(ts, source, refs[k]).1->0,
        ),
    decreases refs.len(),
{
    let p = references::reference_problem_of(ts, source, refs[k]).1->0;
    let prev = references::formula_problems_of(ts, source, refs.drop_last()).0;
    let extra = references::opt_seq(references::reference_problem_of(ts, source, refs.last()).1);
    if k < refs.len() - 1 {
        assert(refs.drop_last()[k] == refs[k]);
        lemma_formula_contains(ts, source, refs.drop_last(), k);
        let i = choose|i: int| 0 <= i < prev.len() && prev[i] == p;
        assert((prev + extra)[i] == p);
    } else {
        assert((prev + extra)[prev.len() as int] == p);
    }
}

proof fn lemma_table_contains(
    ts: Seq<TableModel>,
    t: TableModel,
    fs: Seq<(crate::cell::CellRef, Seq<char>)>,
    j: int,
    p: ProblemView,
)
    requires
        0 <= j < fs.len(),
        row_student(t.students, fs[j].0.row) is Some,
        fs[j].0.col != t.layout.id_column,
        references::formula_problems_of(
            ts,
            references::location_of(t.sheet, fs[j].0, row_student(t.students, fs[j].0.row)->0),
            parsed(fs[j].1).references,
        ).0.contains(p),
    ensures
        references::table_problems_of(ts, t, fs).0.contains(p),
    decreases fs.len(),
{
    let (prev, n) = references::table_problems_of(ts, t, fs.drop_last());
    if j < fs.len() - 1 {
        assert(fs.drop_last()[j] == fs[j]);
        lemma_table_contains(ts, t, fs.drop_last(), j, p);
        let i = choose|i: int| 0 <= i < prev.len() && prev[i] == p;
        let cur = references::table_problems_of(ts, t, fs).0;
        assert(cur.len() >= prev.len() && cur.subrange(0, prev.len() as int) == prev) by {
            let (cell, text) = fs.last();
            if let Some(s) = row_student(t.students, cell.row) {
                if cell.col != t.layout.id_column {
                    let qs = references::formula_problems_of(
                        ts,
                        references::location_of(t.sheet, cell, s),
                        parsed(text).references,
                    ).0;
                    assert((prev + qs).subrange(0, prev.len() as int) =~= prev);
                }
            }
            assert(prev.subrange(0, prev.len() as int) =~= prev);
        }
        assert(cur[i] == cur.subrange(0, prev.len() as int)[i]);
    } else {
        let (cell, text) = fs.last();
        let s = row_student(t.students, cell.row)->0;
        let qs = references::formula_problems_of(
            ts,
            references::location_of(t.sheet, cell, s),
            parsed(text).references,
        ).0;
        let i = choose|i: int| 0 <= i < qs.len() && qs[i] == p;
        assert((prev + qs)[prev.len() + i] == p);
    }
}

proof fn lemma_tables_contains(ts: Seq<TableModel>, wb: Seq<SheetView>, some: Seq<TableModel>, k: int, p: ProblemView)
    requires
        0 <= k < some.len(),
        references::table_problems_of(ts, some[k], formulas_of(wb, some[k].sheet)).0.contains(p),
    ensures
        references::tables_problems_of(ts, wb, some).0.contains(p),
    decreases some.len(),
{
    let prev = references::tables_problems_of(ts, wb, some.drop_last()).0;
    let last = references::table_problems_of(ts, some.last(), formulas_of(wb, some.last().sheet)).0;
    if k < some.len() - 1 {
        assert(some.drop_last()[k] == some[k]);
        lemma_tables_contains(ts, wb, some.drop_last(), k, p);
        let i = choose|i: int| 0 <= i < prev.len() && prev[i] == p;
        assert((prev + last)[i] == p);
    } else {
        let i = choose|i: int| 0 <= i < last.len() && last[i] == p;
        assert((prev + last)[prev.len() + i] == p);
    }
}

/// Whatever the check of a reference from a student row (not from its student id
/// cell) finds is among the problems of the workbook.
pub proof fn lemma_reference_reported(
    wb: Seq<SheetView>,
    config: Config,
    pattern: Seq<char>,
    k: int,
    j: int,
    r: int,
)
    requires
        0 <= k < checked_tables(wb, config, pattern).len(),
        0 <= j < formulas_of(wb, checked_tables(wb, config, pattern)[k].sheet).len(),
        ({
            let tables = checked_tables(wb, config, pattern);
            let t = tables[k];
            let (cell, text) = formulas_of(wb, t.sheet)[j];
            &&& 0 <= r < parsed(text).references.len()
            &&& cell.col != t.layout.id_column
            &&& row_student(t.students, cell.row) is Some
        }),
    ensures
        ({
            let tables = checked_tables(wb, config, pattern);
            let t = tables[k];
            let (cell, text) = formulas_of(wb, t.sheet)[j];
            let source = references::location_of(t.sheet, cell, row_student(t.students, cell.row)->0);
            let found = references::reference_problem_of(tables, source, parsed(text).references[r]).1;
            found matches Some(p) ==> problems_of(wb, config, pattern).contains(p)
        }),
{
    let tables = checked_tables(wb, config, pattern);
    let t = tables[k];
    let fs = formulas_of(wb, t.sheet);
    let (cell, text) = fs[j];
    let refs = parsed(text).references;
    let source = references::location_of(t.sheet, cell, row_student(t.students, cell.row)->0);
    if let Some(p) = references::reference_problem_of(tables, source, refs[r]).1 {
        lemma_formula_contains(tables, source, refs, r);
        lemma_table_contains(tables, t, fs, j, p);
        lemma_tables_contains(tables, wb, tables, k, p);
        let a = sheet_problems_of(wb, config.sheets_view()) + outside_problems_of(wb, pattern, tables)
            + duplicate_problems_of(tables);
        let d = reference_problems_of(tables, wb).0;
        let i = choose|i: int| 0 <= i < d.len() && d[i] == p;
        assert((a + d)[a.len() + i] == p);
    }
}

/// A reference from a student row (not from its student id cell) to a cell (or
/// a range in one row) of a row of another student in another student sheet is
/// reported as a mismatch between the two students, unless it is in a function
/// such as `OFFSET`.
pub proof fn lemma_mismatch_reported(
    wb: Seq<SheetView>,
    config: Config,
    pattern: Seq<char>,
    k: int,
    j: int,
    r: int,
)
    requires
        0 <= k < checked_tables(wb, config, pattern).len(),
        0 <= j < formulas_of(wb, checked_tables(wb, config, pattern)[k].sheet).len(),
        ({
            let tables = checked_tables(wb, config, pattern);
            let t = tables[k];
            let (cell, text) = formulas_of(wb, t.sheet)[j];
            let refs = parsed(text).references;
            &&& 0 <= r < refs.len()
            &&& cell.col != t.layout.id_column
            &&& row_student(t.students, cell.row) is Some
            &&& refs[r].sheet is Some
            &&& refs[r].sheet->0 != t.sheet
            &&& references::find_table(tables, refs[r].sheet->0) is Some
            &&& refs[r].usage != Usage::Dynamic
            &&& refs[r].range.start.row == refs[r].range.end.row
            &&& row_student(
                references::find_table(tables, refs[r].sheet->0)->0.students,
                refs[r].range.start.row,
            ) is Some
            &&& row_student(
                references::find_table(tables, refs[r].sheet->0)->0.students,
                refs[r].range.start.row,
            )->0.id != row_student(t.students, cell.row)->0.id
        }),
    ensures
        ({
            let tables = checked_tables(wb, config, pattern);
            let t = tables[k];
            let (cell, text) = formulas_of(wb, t.sheet)[j];
            let reference = parsed(text).references[r];
            let target = references::find_table(tables, reference.sheet->0)->0;
            problems_of(wb, config, pattern).contains(
                ProblemView::IdMismatch {
                    source: references::location_of(t.sheet, cell, row_student(t.students, cell.row)->0),
                    target: references::location_of(
                        target.sheet,
                        reference.range.start,
                        row_student(target.students, reference.range.start.row)->0,
                    ),
                },
            )
        }),
{
    lemma_reference_reported(wb, config, pattern, k, j, r);
}

/// A reference from a student row (not from its student id cell) to a range over
/// several rows of another student sheet which holds more than one student is
/// reported, unless it is in a lookup function or a function such as `OFFSET`.
pub proof fn lemma_multi_student_range_reported(
    wb: Seq<SheetView>,
    config: Config,
    pattern: Seq<char>,
    k: int,
    j: int,
    r: int,
)
    requires
        0 <= k < checked_tables(wb, config, pattern).len(),
        0 <= j < formulas_of(wb, checked_tables(wb, config, pattern)[k].sheet).len(),
        ({
            let tables = checked_tables(wb, config, pattern);
            let t = tables[k];
            let (cell, text) = formulas_of(wb, t.sheet)[j];
            let refs = parsed(text).references;
            &&& 0 <= r < refs.len()
            &&& cell.col != t.layout.id_column
            &&& row_student(t.students, cell.row) is Some
            &&& refs[r].sheet is Some
            &&& refs[r].sheet->0 != t.sheet
            &&& references::find_table(tables, refs[r].sheet->0) is Some
            &&& refs[r].usage == Usage::Direct
            &&& refs[r].range.start.row != refs[r].range.end.row
            &&& students_where(
                references::find_table(tables, refs[r].sheet->0)->0.students,
                |row: u32| refs[r].range.start.row <= row && row <= refs[r].range.end.row,
            ).len() > 1
        }),
    ensures
        ({
            let tables = checked_tables(wb, config, pattern);
            let t = tables[k];
            let (cell, text) = formulas_of(wb, t.sheet)[j];
            let reference = parsed(text).references[r];
            let target = references::find_table(tables, reference.sheet->0)->0;
            problems_of(wb, config, pattern).contains(
                ProblemView::MultiStudentRange {
                    source: references::location_of(t.sheet, cell, row_student(t.students, cell.row)->0),
                    target: RangeLocationView { sheet: target.sheet, range: reference.range },
                },
            )
        }),
{
    lemma_reference_reported(wb, config, pattern, k, j, r);
}

/// A sheet of the workbook that the config does not have is reported as unknown.
pub proof fn lemma_unknown_sheet_reported(wb: Seq<SheetView>, config: Config, pattern: Seq<char>, k: int)
    requires
        0 <= k < wb.len(),
        lookup(config.sheets_view(), wb[k].name) is None,
    ensures
        problems_of(wb, config, pattern).contains(ProblemView::UnknownSheet { sheet: wb[k].name }),
{
    let tables = checked_tables(wb, config, pattern);
    let names = wb.map_values(|s: SheetView| s.name);
    let sheets = config.sheets_view();
    let p = ProblemView::UnknownSheet { sheet: wb[k].name };
    assert(names[k] == wb[k].name);
    consistency::lemma_unknown_sheets_complete(names, sheets, k);
    let u = unknown_sheets(names, sheets);
    let i = choose|i: int| 0 <= i < u.len() && u[i] == p;
    let all = problems_of(wb, config, pattern);
    assert(all == u + missing_sheets(wb, sheets) + outside_problems_of(wb, pattern, tables) + duplicate_problems_of(tables)
        + reference_problems_of(tables, wb).0);
    assert(all[i] == p);
}

/// A sheet of the config that the workbook does not have is reported as missing.
pub proof fn lemma_missing_sheet_reported(wb: Seq<SheetView>, config: Config, pattern: Seq<char>, j: int)
    requires
        0 <= j < config.sheets_view().len(),
        !has_sheet(wb, config.sheets_view()[j].0),
    ensures
        problems_of(wb, config, pattern).contains(ProblemView::MissingSheet { sheet: config.sheets_view()[j].0 }),
{
    let tables = checked_tables(wb, config, pattern);
    let names = wb.map_values(|s: SheetView| s.name);
    let sheets = config.sheets_view();
    let p = ProblemView::MissingSheet { sheet: sheets[j].0 };
    consistency::lemma_missing_sheets_complete(wb, sheets, j);
    let u = unknown_sheets(names, sheets);
    let m = missing_sheets(wb, sheets);
    let i = choose|i: int| 0 <= i < m.len() && m[i] == p;
    let all = problems_of(wb, config, pattern);
    assert(all == u + m + outside_problems_of(wb, pattern, tables) + duplicate_problems_of(tables)
        + reference_problems_of(tables, wb).0);
    assert(all[u.len() + i] == p);
}

/// A student id in the id column of a checked table, in a row of the sheet above
/// or below the rows of the table, is reported as outside the table.
pub proof fn lemma_outside_id_reported(
    wb: Seq<SheetView>,
    config: Config,
    pattern: Seq<char>,
    k: int,
    row: u32,
    id: Seq<char>,
)
    requires
        0 <= k < checked_tables(wb, config, pattern).len(),
        ({
            let t = checked_tables(wb, config, pattern)[k];
            &&& rows_of(wb, t.sheet) matches Some((first, last)) && first <= row <= last
            &&& !(t.layout.start_row <= row <= t.layout.end_row)
            &&& id_at(wb, t.sheet, pattern, CellRef { row, col: t.layout.id_column }) == Some(id)
        }),
    ensures
        ({
            let t = checked_tables(wb, config, pattern)[k];
            problems_of(wb, config, pattern).contains(
                ProblemView::IdOutsideTable { sheet: t.sheet, cell: CellRef { row, col: t.layout.id_column }, id },
            )
        }),
{
    let tables = checked_tables(wb, config, pattern);
    let t = tables[k];
    let p = ProblemView::IdOutsideTable { sheet: t.sheet, cell: CellRef { row, col: t.layout.id_column }, id };
    consistency::lemma_outside_ids_complete(wb, pattern, tables, k, row, id);
    let a = sheet_problems_of(wb, config.sheets_view());
    let b = outside_problems_of(wb, pattern, tables);
    let i = choose|i: int| 0 <= i < b.len() && b[i] == p;
    let all = problems_of(wb, config, pattern);
    assert(all == a + b + duplicate_problems_of(tables) + reference_problems_of(tables, wb).0);
    assert(all[a.len() + i] == p);
}

/// The student rows of each table are those that the table layout gives.
proof fn lemma_tables_students(wb: Seq<SheetView>, ss: Seq<(Seq<char>, TableLayout)>, pattern: Seq<char>)
    ensures
        forall|k: int|
            0 <= k < tables_of(wb, ss, pattern).len() ==> (#[trigger] tables_of(wb, ss, pattern)[k]).students
                == table_students(wb, tables_of(wb, ss, pattern)[k].sheet, pattern, tables_of(wb, ss, pattern)[k].layout),
    decreases ss.len(),
{
    if ss.len() > 0 {
        let p = ss.drop_last();
        lemma_tables_students(wb, p, pattern);
        let q = tables_of(wb, p, pattern);
        let out = tables_of(wb, ss, pattern);
        assert forall|k: int| 0 <= k < out.len() implies (#[trigger] out[k]).students == table_students(
            wb,
            out[k].sheet,
            pattern,
            out[k].layout,
        ) by {
            if k < q.len() {
                assert(out[k] == q[k]);
            }
        }
    }
}

/// The table found for a sheet is one of the tables.
proof fn lemma_find_table_in(ts: Seq<TableModel>, sheet: Seq<char>)
    ensures
        references::find_table(ts, sheet) matches Some(t) ==> exists|k: int| 0 <= k < ts.len() && ts[k] == t,
    decreases ts.len(),
{
    if ts.len() > 0 && ts[0].sheet != sheet {
        lemma_find_table_in(ts.drop_first(), sheet);
        if let Some(t) = references::find_table(ts, sheet) {
            let k = choose|k: int| 0 <= k < ts.drop_first().len() && ts.drop_first()[k] == t;
            assert(ts[k + 1] == t);
        }
    }
}

/// A reference from a student row (not from its student id cell) to a range of
/// another student sheet which holds exactly one student row, not in a lookup
/// function or a function such as `OFFSET`, is checked like the cell of that row
/// in the first column of the range: if the student differs from the student of
/// the source row, the mismatch is reported.
pub proof fn lemma_one_student_range_reported(
    wb: Seq<SheetView>,
    config: Config,
    pattern: Seq<char>,
    k: int,
    j: int,
    r: int,
    row: u32,
)
    requires
        0 <= k < checked_tables(wb, config, pattern).len(),
        0 <= j < formulas_of(wb, checked_tables(wb, config, pattern)[k].sheet).len(),
        ({
            let tables = checked_tables(wb, config, pattern);
            let t = tables[k];
            let (cell, text) = formulas_of(wb, t.sheet)[j];
            let refs = parsed(text).references;
            &&& 0 <= r < refs.len()
            &&& cell.col != t.layout.id_column
            &&& row_student(t.students, cell.row) is Some
            &&& refs[r].sheet is Some
            &&& refs[r].sheet->0 != t.sheet
            &&& references::find_table(tables, refs[r].sheet->0) is Some
            &&& refs[r].usage == Usage::Direct
            &&& refs[r].range.start.row <= row <= refs[r].range.end.row
            &&& row_student(references::find_table(tables, refs[r].sheet->0)->0.students, row) is Some
            &&& row_student(references::find_table(tables, refs[r].sheet->0)->0.students, row)->0.id
                != row_student(t.students, cell.row)->0.id
            &&& forall|other: u32|
                refs[r].range.start.row <= other <= refs[r].range.end.row && other != row ==> #[trigger] row_student(
                    references::find_table(tables, refs[r].sheet->0)->0.students,
                    other,
                ) is None
        }),
    ensures
        ({
            let tables = checked_tables(wb, config, pattern);
            let t = tables[k];
            let (cell, text) = formulas_of(wb, t.sheet)[j];
            let reference = parsed(text).references[r];
            let target = references::find_table(tables, reference.sheet->0)->0;
            let st = row_student(target.students, row)->0;
            problems_of(wb, config, pattern).contains(
                ProblemView::IdMismatch {
                    source: references::location_of(t.sheet, cell, row_student(t.students, cell.row)->0),
                    target: LocationView {
                        sheet: target.sheet,
                        cell: CellRef { row, col: reference.range.start.col },
                        id: st.id,
                        name: st.name,
                    },
                },
            )
        }),
{
    let tables = checked_tables(wb, config, pattern);
    let t = tables[k];
    let (cell, text) = formulas_of(wb, t.sheet)[j];
    let reference = parsed(text).references[r];
    let target = references::find_table(tables, reference.sheet->0)->0;
    let source = references::location_of(t.sheet, cell, row_student(t.students, cell.row)->0);
    lemma_find_table_in(tables, reference.sheet->0);
    lemma_tables_students(wb, student_sheets_of(config.sheets_view()), pattern);
    let i = choose|i: int| 0 <= i < tables.len() && tables[i] == target;
    lemma_students_below(wb, target.sheet, pattern, target.layout, target.layout.end_row + 1);
    assert(rows_increasing(target.students));
    if reference.range.start.row != reference.range.end.row {
        references::lemma_one_student_range(source, target, reference, row);
    } else {
        assert(row == reference.range.start.row);
    }
    lemma_reference_reported(wb, config, pattern, k, j, r);
}

proof fn lemma_duplicates_contains(ts: Seq<TableModel>, k: int, p: ProblemView)
    requires
        0 <= k < ts.len(),
        consistency::duplicated_ids_of(ts[k]).contains(p),
    ensures
        duplicate_problems_of(ts).contains(p),
    decreases ts.len(),
{
    let prev = duplicate_problems_of(ts.drop_last());
    let last = consistency::duplicated_ids_of(ts.last());
    if k < ts.len() - 1 {
        assert(ts.drop_last()[k] == ts[k]);
        lemma_duplicates_contains(ts.drop_last(), k, p);
        let i = choose|i: int| 0 <= i < prev.len() && prev[i] == p;
        assert((prev + last)[i] == p);
    } else {
        let i = choose|i: int| 0 <= i < last.len() && last[i] == p;
        assert((prev + last)[prev.len() + i] == p);
    }
}

/// A student id in more than one row of a student table is reported as duplicated,
/// with all its cells in the order of the rows.
pub proof fn lemma_duplicate_reported(wb: Seq<SheetView>, config: Config, pattern: Seq<char>, k: int, id: Seq<char>)
    requires
        0 <= k < checked_tables(wb, config, pattern).len(),
        crate::table::id_cells(
            checked_tables(wb, config, pattern)[k].students,
            id,
            checked_tables(wb, config, pattern)[k].layout.id_column,
        ).len() > 1,
    ensures
        ({
            let t = checked_tables(wb, config, pattern)[k];
            problems_of(wb, config, pattern).contains(
                ProblemView::DuplicatedId {
                    sheet: t.sheet,
                    id,
                    cells: crate::table::id_cells(t.students, id, t.layout.id_column),
                },
            )
        }),
{
    let tables = checked_tables(wb, config, pattern);
    let t = tables[k];
    let cells = crate::table::id_cells(t.students, id, t.layout.id_column);
    let p = ProblemView::DuplicatedId { sheet: t.sheet, id, cells };
    crate::table::lemma_duplicates_of(t.students, t.layout.id_column);
    let d = duplicates_of(t.students, t.layout.id_column);
    let a = choose|a: int| 0 <= a < d.len() && d[a] == (id, cells);
    assert(consistency::duplicated_ids_of(t)[a] == p);
    lemma_duplicates_contains(tables, k, p);
    let x = sheet_problems_of(wb, config.sheets_view()) + outside_problems_of(wb, pattern, tables);
    let c = duplicate_problems_of(tables);
    let y = reference_problems_of(tables, wb).0;
    let i = choose|i: int| 0 <= i < c.len() && c[i] == p;
    assert((x + c + y)[x.len() + i] == p);
}

/// Checks a workbook with the student tables given by the config.
pub struct Checker<'a> {
    /// The workbook to check.
    pub workbook: &'a Workbook,
    /// The config of the workbook.
    pub config: &'a Config,
    /// The pattern of student ids.
    pub pattern: &'a IdPattern,
    /// The student tables of the student sheets in both the config and the
    /// workbook, in the order of the sheet names.
    pub tables: Vec<StudentTable>,
}

impl<'a> Checker<'a> {
    /// The tables are those of the workbook and the config.
    pub open spec fn wf(&self) -> bool {
        &&& self.config.wf()
        &&& tables_view(self.tables@) == checked_tables(self.workbook@, *self.config, self.pattern@)
    }

    /// Reads the student tables of the sheets in the config.
    pub fn new(workbook: &'a Workbook, config: &'a Config, pattern: &'a IdPattern) -> (r: Self)
        requires
            config.wf(),
        ensures
            r.workbook == workbook,
            r.config == config,
            r.pattern == pattern,
            r.wf(),
    {
        let sheets = config.student_sheets();
        let ghost sv = entries_view(sheets@);
        let mut tables: Vec<StudentTable> = Vec::new();
        let mut i: usize = 0;
        while i < sheets.len()
            invariant
                i <= sheets.len(),
                sv == entries_view(sheets@),
                sv == student_sheets_of(config.sheets_view()),
                tables_view(tables@) == tables_of(workbook@, sv.take(i as int), pattern@),
            decreases sheets.len() - i,
        {
            assert(sv.take(i + 1).drop_last() =~= sv.take(i as int));
            assert(sv[i as int] == (sheets@[i as int].0@, sheets@[i as int].1));
            let (name, layout) = (&sheets[i].0, sheets[i].1);
            if workbook.contains(name.as_str()) {
                let ghost before = tables@;
                let table = StudentTable::build(name.as_str(), layout, workbook, pattern);
                tables.push(table);
                assert(tables_view(tables@) =~= tables_view(before).push(table_model(table)));
            }
            i += 1;
        }
        assert(sv.take(sheets.len() as int) =~= sv);
        Checker { workbook, config, pattern, tables }
    }

    /// The warnings about the student ids which cannot be resolved (whose formulas
    /// should be recalculated in Excel).
    pub fn warnings(&self) -> (r: Vec<String>)
        requires
            self.wf(),
        ensures
            strings_view(r@) == check_warnings_of(self.workbook@, tables_view(self.tables@)),
    {
        let ghost tv = tables_view(self.tables@);
        let mut inside: Vec<String> = Vec::new();
        let mut outside: Vec<String> = Vec::new();
        let mut i: usize = 0;
        while i < self.tables.len()
            invariant
                i <= self.tables.len(),
                tv == tables_view(self.tables@),
                strings_view(inside@) == unresolved_of(self.workbook@, tv.take(i as int), false),
                strings_view(outside@) == unresolved_of(self.workbook@, tv.take(i as int), true),
            decreases self.tables.len() - i,
        {
            assert(tv.take(i + 1).drop_last() =~= tv.take(i as int));
            let table = &self.tables[i];
            let reader = RowReader::new(self.workbook, table.sheet.as_str(), self.pattern);
            let ghost (a, b) = (inside@, outside@);
            let mut found_in = unresolved_warnings(&reader, &table.layout, false);
            let mut found_out = unresolved_warnings(&reader, &table.layout, true);
            let ghost (c, d) = (found_in@, found_out@);
            inside.append(&mut found_in);
            outside.append(&mut found_out);
            assert(strings_view(inside@) =~= strings_view(a) + strings_view(c));
            assert(strings_view(outside@) =~= strings_view(b) + strings_view(d));
            i += 1;
        }
        assert(tv.take(self.tables.len() as int) =~= tv);
        let ghost (a, b) = (inside@, outside@);
        inside.append(&mut outside);
        assert(strings_view(inside@) =~= strings_view(a) + strings_view(b));
        inside
    }

    /// Runs all checks, and returns the found problems with the summary.
    pub fn run(&self) -> (r: (Vec<Problem>, Summary))
        requires
            self.wf(),
        ensures
            problems_view(r.0@) == problems_of(self.workbook@, *self.config, self.pattern@),
            r.1 == summary_of(self.workbook@, *self.config, self.pattern@),
            r.1.problems == r.0.len(),
    {
        let mut problems = self.sheet_problems();
        let mut outside = self.outside_problems();
        let mut duplicates = self.duplicate_problems();
        let (mut references, count) = self.reference_problems();
        let ghost (a, b, c, d) = (problems@, outside@, duplicates@, references@);
        problems.append(&mut outside);
        problems.append(&mut duplicates);
        problems.append(&mut references);
        assert(problems_view(problems@) =~= problems_view(a) + problems_view(b) + problems_view(c)
            + problems_view(d));
        let summary = Summary { sheets: self.tables.len(), references: count, problems: problems.len() };
        (problems, summary)
    }
}

} // verus!
