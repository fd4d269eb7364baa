//! Checks the consistency between the config and the workbook: the sheets in only
//! one of them, the student ids outside the tables, and the duplicated ids.
use vstd::prelude::*;
use super::{Checker, TableModel, table_model, tables_view};
use crate::cell::{CellRef, copy_cells};
use crate::config::SheetConfig;
use crate::problem::{Problem, ProblemView, problems_view};
use crate::table::{RowReader, StudentTable, duplicates_of, groups_view, id_at};
use crate::text::{entries_view, lookup};
use crate::workbook::{SheetView, has_sheet, rows_of};

verus! {

/// The sheets of the workbook (in the workbook order) which are not in the config.
pub open spec fn unknown_sheets(names: Seq<Seq<char>>, sheets: Seq<(Seq<char>, SheetConfig)>) -> Seq<
    ProblemView,
>
    decreases names.len(),
{
    if names.len() == 0 {
        Seq::empty()
    } else {
        let prev = unknown_sheets(names.drop_last(), sheets);
        if lookup(sheets, names.last()) is None {
            prev.push(ProblemView::UnknownSheet { sheet: names.last() })
        } else {
            prev
        }
    }
}

/// The sheets of the config (in the order of the names) which are not in the workbook.
pub open spec fn missing_sheets(wb: Seq<SheetView>, sheets: Seq<(Seq<char>, SheetConfig)>) -> Seq<
    ProblemView,
>
    decreases sheets.len(),
{
    if sheets.len() == 0 {
        Seq::empty()
    } else {
        let prev = missing_sheets(wb, sheets.drop_last());
        if !has_sheet(wb, sheets.last().0) {
            prev.push(ProblemView::MissingSheet { sheet: sheets.last().0 })
        } else {
            prev
        }
    }
}

/// The sheets added to the workbook or removed from it after the config was written.
pub open spec fn sheet_problems_of(wb: Seq<SheetView>, sheets: Seq<(Seq<char>, SheetConfig)>) -> Seq<
    ProblemView,
> {
    unknown_sheets(wb.map_values(|s: SheetView| s.name), sheets) + missing_sheets(wb, sheets)
}

/// No sheet is unknown if the config has every sheet of the workbook.
pub proof fn lemma_no_unknown_sheets(names: Seq<Seq<char>>, sheets: Seq<(Seq<char>, SheetConfig)>)
    requires
        forall|k: int| 0 <= k < names.len() ==> #[trigger] lookup(sheets, names[k]) is Some,
    ensures
        unknown_sheets(names, sheets) == Seq::<ProblemView>::empty(),
    decreases names.len(),
{
    if names.len() > 0 {
        assert(lookup(sheets, names[names.len() - 1]) is Some);
        lemma_no_unknown_sheets(names.drop_last(), sheets);
    }
}

/// No sheet is missing if the workbook has every sheet of the config.
pub proof fn lemma_no_missing_sheets(wb: Seq<SheetView>, sheets: Seq<(Seq<char>, SheetConfig)>)
    requires
        forall|j: int| 0 <= j < sheets.len() ==> has_sheet(wb, #[trigger] sheets[j].0),
    ensures
        missing_sheets(wb, sheets) == Seq::<ProblemView>::empty(),
    decreases sheets.len(),
{
    if sheets.len() > 0 {
        assert(has_sheet(wb, sheets[sheets.len() - 1].0));
        lemma_no_missing_sheets(wb, sheets.drop_last());
    }
}

/// The student ids in the id column in the rows from `first` below `end` which are
/// outside the table.
pub open spec fn outside_rows(
    wb: Seq<SheetView>,
    pattern: Seq<char>,
    t: TableModel,
    first: int,
    end: int,
) -> Seq<ProblemView>
    decreases end - first,
{
    if end <= first {
        Seq::empty()
    } else {
        let prev = outside_rows(wb, pattern, t, first, end - 1);
        let row = (end - 1) as u32;
        let cell = CellRef { row, col: t.layout.id_column };
        if t.layout.start_row <= row <= t.layout.end_row {
            prev
        } else {
            match id_at(wb, t.sheet, pattern, cell) {
                Some(id) => prev.push(ProblemView::IdOutsideTable { sheet: t.sheet, cell, id }),
                None => prev,
            }
        }
    }
}

/// The student ids outside the table in the rows of the sheet.
pub open spec fn ids_outside_of(wb: Seq<SheetView>, pattern: Seq<char>, t: TableModel) -> Seq<
    ProblemView,
> {
    match rows_of(wb, t.sheet) {
        None => Seq::empty(),
        Some((first, last)) => outside_rows(wb, pattern, t, first as int, last + 1),
    }
}

/// The student ids outside the tables, table by table.
pub open spec fn outside_problems_of(wb: Seq<SheetView>, pattern: Seq<char>, ts: Seq<TableModel>) -> Seq<
    ProblemView,
>
    decreases ts.len(),
{
    if ts.len() == 0 {
        Seq::empty()
    } else {
        outside_problems_of(wb, pattern, ts.drop_last()) + ids_outside_of(wb, pattern, ts.last())
    }
}

/// The duplicated ids of the table.
pub open spec fn duplicated_ids_of(t: TableModel) -> Seq<ProblemView> {
    duplicates_of(t.students, t.layout.id_column).map_values(
        |g: (Seq<char>, Seq<crate::cell::CellRef>)|
            ProblemView::DuplicatedId { sheet: t.sheet, id: g.0, cells: g.1 },
    )
}

/// The duplicated ids, table by table.
pub open spec fn duplicate_problems_of(ts: Seq<TableModel>) -> Seq<ProblemView>
    decreases ts.len(),
{
    if ts.len() == 0 {
        Seq::empty()
    } else {
        duplicate_problems_of(ts.drop_last()) + duplicated_ids_of(ts.last())
    }
}

/// The unknown sheets are reported as such, and are not in the config.
pub proof fn lemma_unknown_sheets_kind(names: Seq<Seq<char>>, sheets: Seq<(Seq<char>, SheetConfig)>)
    ensures
        forall|i: int|
            0 <= i < unknown_sheets(names, sheets).len() ==> (#[trigger] unknown_sheets(names, sheets)[i] matches ProblemView::UnknownSheet { sheet } && lookup(sheets, sheet) is None),
    decreases names.len(),
{
    if names.len() > 0 {
        lemma_unknown_sheets_kind(names.drop_last(), sheets);
        let prev = unknown_sheets(names.drop_last(), sheets);
        let cur = unknown_sheets(names, sheets);
        assert forall|i: int| 0 <= i < cur.len() implies (#[trigger] cur[i] matches ProblemView::UnknownSheet { sheet } && lookup(sheets, sheet) is None) by {
            if i < prev.len() {
                assert(cur[i] == prev[i]);
            }
        }
    }
}

/// The missing sheets are reported as such, and are not in the workbook.
pub proof fn lemma_missing_sheets_kind(wb: Seq<SheetView>, sheets: Seq<(Seq<char>, SheetConfig)>)
    ensures
        forall|i: int|
            0 <= i < missing_sheets(wb, sheets).len() ==> (#[trigger] missing_sheets(wb, sheets)[i] matches ProblemView::MissingSheet { sheet } && !has_sheet(wb, sheet)),
    decreases sheets.len(),
{
    if sheets.len() > 0 {
        lemma_missing_sheets_kind(wb, sheets.drop_last());
        let prev = missing_sheets(wb, sheets.drop_last());
        let cur = missing_sheets(wb, sheets);
        assert forall|i: int| 0 <= i < cur.len() implies (#[trigger] cur[i] matches ProblemView::MissingSheet { sheet } && !has_sheet(wb, sheet)) by {
            if i < prev.len() {
                assert(cur[i] == prev[i]);
            }
        }
    }
}

proof fn lemma_outside_rows_kind(wb: Seq<SheetView>, pattern: Seq<char>, t: TableModel, first: int, end: int)
    ensures
        forall|i: int|
            0 <= i < outside_rows(wb, pattern, t, first, end).len() ==> (#[trigger] outside_rows(wb, pattern, t, first, end)[i] matches ProblemView::IdOutsideTable { sheet, .. } && sheet == t.sheet),
    decreases end - first,
{
    if end > first {
        lemma_outside_rows_kind(wb, pattern, t, first, end - 1);
        let prev = outside_rows(wb, pattern, t, first, end - 1);
        let cur = outside_rows(wb, pattern, t, first, end);
        assert forall|i: int| 0 <= i < cur.len() implies (#[trigger] cur[i] matches ProblemView::IdOutsideTable { sheet, .. } && sheet == t.sheet) by {
            if i < prev.len() {
                assert(cur[i] == prev[i]);
            }
        }
    }
}

/// The ids outside the tables are reported as such.
pub proof fn lemma_outside_problems_kind(wb: Seq<SheetView>, pattern: Seq<char>, ts: Seq<TableModel>)
    ensures
        forall|i: int|
            0 <= i < outside_problems_of(wb, pattern, ts).len() ==> #[trigger] outside_problems_of(wb, pattern, ts)[i] is IdOutsideTable,
    decreases ts.len(),
{
    if ts.len() > 0 {
        lemma_outside_problems_kind(wb, pattern, ts.drop_last());
        let prev = outside_problems_of(wb, pattern, ts.drop_last());
        let last = ids_outside_of(wb, pattern, ts.last());
        let cur = outside_problems_of(wb, pattern, ts);
        if let Some((first, l)) = rows_of(wb, ts.last().sheet) {
            lemma_outside_rows_kind(wb, pattern, ts.last(), first as int, l + 1);
        }
        assert forall|i: int| 0 <= i < cur.len() implies #[trigger] cur[i] is IdOutsideTable by {
            if i < prev.len() {
                assert(cur[i] == prev[i]);
            } else {
                assert(cur[i] == last[i - prev.len()]);
            }
        }
    }
}

/// The duplicated ids are reported as such.
pub proof fn lemma_duplicate_problems_kind(ts: Seq<TableModel>)
    ensures
        forall|i: int| 0 <= i < duplicate_problems_of(ts).len() ==> #[trigger] duplicate_problems_of(ts)[i] is DuplicatedId,
    decreases ts.len(),
{
    if ts.len() > 0 {
        lemma_duplicate_problems_kind(ts.drop_last());
        let prev = duplicate_problems_of(ts.drop_last());
        let last = duplicated_ids_of(ts.last());
        let cur = duplicate_problems_of(ts);
        assert forall|i: int| 0 <= i < cur.len() implies #[trigger] cur[i] is DuplicatedId by {
            if i < prev.len() {
                assert(cur[i] == prev[i]);
            } else {
                assert(cur[i] == last[i - prev.len()]);
            }
        }
    }
}

/// Every sheet of the workbook that the config does not have is reported as
/// unknown.
pub proof fn lemma_unknown_sheets_complete(names: Seq<Seq<char>>, sheets: Seq<(Seq<char>, SheetConfig)>, k: int)
    requires
        0 <= k < names.len(),
        lookup(sheets, names[k]) is None,
    ensures
        unknown_sheets(names, sheets).contains(ProblemView::UnknownSheet { sheet: names[k] }),
    decreases names.len(),
{
    let prev = unknown_sheets(names.drop_last(), sheets);
    let cur = unknown_sheets(names, sheets);
    let p = ProblemView::UnknownSheet { sheet: names[k] };
    if k == names.len() - 1 {
        assert(cur == prev.push(p));
        assert(cur[prev.len() as int] == p);
    } else {
        assert(names.drop_last()[k] == names[k]);
        lemma_unknown_sheets_complete(names.drop_last(), sheets, k);
        let i = choose|i: int| 0 <= i < prev.len() && prev[i] == p;
        assert(cur[i] == prev[i]);
    }
}

/// Every sheet of the config that the workbook does not have is reported as
/// missing.
pub proof fn lemma_missing_sheets_complete(wb: Seq<SheetView>, sheets: Seq<(Seq<char>, SheetConfig)>, k: int)
    requires
        0 <= k < sheets.len(),
        !has_sheet(wb, sheets[k].0),
    ensures
        missing_sheets(wb, sheets).contains(ProblemView::MissingSheet { sheet: sheets[k].0 }),
    decreases sheets.len(),
{
    let prev = missing_sheets(wb, sheets.drop_last());
    let cur = missing_sheets(wb, sheets);
    let p = ProblemView::MissingSheet { sheet: sheets[k].0 };
    if k == sheets.len() - 1 {
        assert(cur == prev.push(p));
        assert(cur[prev.len() as int] == p);
    } else {
        assert(sheets.drop_last()[k] == sheets[k]);
        lemma_missing_sheets_complete(wb, sheets.drop_last(), k);
        let i = choose|i: int| 0 <= i < prev.len() && prev[i] == p;
        assert(cur[i] == prev[i]);
    }
}

proof fn lemma_outside_rows_complete(
    wb: Seq<SheetView>,
    pattern: Seq<char>,
    t: TableModel,
    first: int,
    end: int,
    row: u32,
    id: Seq<char>,
)
    requires
        first <= row < end,
        !(t.layout.start_row <= row <= t.layout.end_row),
        id_at(wb, t.sheet, pattern, CellRef { row, col: t.layout.id_column }) == Some(id),
    ensures
        outside_rows(wb, pattern, t, first, end).contains(
            ProblemView::IdOutsideTable { sheet: t.sheet, cell: CellRef { row, col: t.layout.id_column }, id },
        ),
    decreases end - first,
{
    let prev = outside_rows(wb, pattern, t, first, end - 1);
    let cur = outside_rows(wb, pattern, t, first, end);
    let p = ProblemView::IdOutsideTable { sheet: t.sheet, cell: CellRef { row, col: t.layout.id_column }, id };
    if row == end - 1 {
        assert((end - 1) as u32 == row);
        assert(cur == prev.push(p));
        assert(cur[prev.len() as int] == p);
    } else {
        lemma_outside_rows_complete(wb, pattern, t, first, end - 1, row, id);
        let i = choose|i: int| 0 <= i < prev.len() && prev[i] == p;
        if t.layout.start_row <= (end - 1) as u32 <= t.layout.end_row {
            assert(cur == prev);
        } else {
            assert(cur[i] == prev[i]);
        }
    }
}

/// A student id in the id column of a table, in a row of the sheet above or below
/// the rows of the table, is reported as outside the table.
pub proof fn lemma_outside_ids_complete(
    wb: Seq<SheetView>,
    pattern: Seq<char>,
    ts: Seq<TableModel>,
    k: int,
    row: u32,
    id: Seq<char>,
)
    requires
        0 <= k < ts.len(),
        rows_of(wb, ts[k].sheet) matches Some((first, last)) && first <= row <= last,
        !(ts[k].layout.start_row <= row <= ts[k].layout.end_row),
        id_at(wb, ts[k].sheet, pattern, CellRef { row, col: ts[k].layout.id_column }) == Some(id),
    ensures
        outside_problems_of(wb, pattern, ts).contains(
            ProblemView::IdOutsideTable { sheet: ts[k].sheet, cell: CellRef { row, col: ts[k].layout.id_column }, id },
        ),
    decreases ts.len(),
{
    let p = ProblemView::IdOutsideTable { sheet: ts[k].sheet, cell: CellRef { row, col: ts[k].layout.id_column }, id };
    let prev = outside_problems_of(wb, pattern, ts.drop_last());
    let last = ids_outside_of(wb, pattern, ts.last());
    let cur = outside_problems_of(wb, pattern, ts);
    assert(cur == prev + last);
    if k == ts.len() - 1 {
        let (first, l) = rows_of(wb, ts[k].sheet)->0;
        lemma_outside_rows_complete(wb, pattern, ts[k], first as int, l + 1, row, id);
        let i = choose|i: int| 0 <= i < last.len() && last[i] == p;
        assert(cur[prev.len() + i] == p);
    } else {
        assert(ts.drop_last()[k] == ts[k]);
        lemma_outside_ids_complete(wb, pattern, ts.drop_last(), k, row, id);
        let i = choose|i: int| 0 <= i < prev.len() && prev[i] == p;
        assert(cur[i] == p);
    }
}

/// Every reported unknown sheet is a sheet of the workbook that the config does
/// not have.
pub proof fn lemma_unknown_sheets_sound(names: Seq<Seq<char>>, sheets: Seq<(Seq<char>, SheetConfig)>)
    ensures
        forall|i: int|
            0 <= i < unknown_sheets(names, sheets).len() ==> exists|k: int|
                0 <= k < names.len() && #[trigger] unknown_sheets(names, sheets)[i] == (ProblemView::UnknownSheet {
                    sheet: names[k],
                }) && lookup(sheets, names[k]) is None,
    decreases names.len(),
{
    if names.len() > 0 {
        let p = names.drop_last();
        lemma_unknown_sheets_sound(p, sheets);
        let prev = unknown_sheets(p, sheets);
        let cur = unknown_sheets(names, sheets);
        assert forall|i: int| 0 <= i < cur.len() implies exists|k: int|
            0 <= k < names.len() && #[trigger] cur[i] == (ProblemView::UnknownSheet { sheet: names[k] }) && lookup(
                sheets,
                names[k],
            ) is None by {
            if i < prev.len() {
                assert(cur[i] == prev[i]);
                let k = choose|k: int|
                    0 <= k < p.len() && #[trigger] prev[i] == (ProblemView::UnknownSheet { sheet: p[k] }) && lookup(
                        sheets,
                        p[k],
                    ) is None;
                assert(names[k] == p[k]);
            } else {
                assert(cur[i] == ProblemView::UnknownSheet { sheet: names[names.len() - 1] });
            }
        }
    }
}

/// Every reported id outside a table is the id of the id cell of a row of the
/// scanned rows outside the rows of the table.
proof fn lemma_outside_rows_sound(wb: Seq<SheetView>, pattern: Seq<char>, t: TableModel, first: int, end: int)
    requires
        0 <= first,
        end <= u32::MAX as int + 1,
    ensures
        forall|i: int|
            0 <= i < outside_rows(wb, pattern, t, first, end).len() ==> (#[trigger] outside_rows(
                wb,
                pattern,
                t,
                first,
                end,
            )[i] matches ProblemView::IdOutsideTable { sheet, cell, id } && sheet == t.sheet && cell.col
                == t.layout.id_column && first <= cell.row < end && !(t.layout.start_row <= cell.row
                <= t.layout.end_row) && id_at(wb, t.sheet, pattern, cell) == Some(id)),
    decreases end - first,
{
    if end > first {
        lemma_outside_rows_sound(wb, pattern, t, first, end - 1);
        let prev = outside_rows(wb, pattern, t, first, end - 1);
        let cur = outside_rows(wb, pattern, t, first, end);
        assert forall|i: int| 0 <= i < cur.len() implies (#[trigger] cur[i] matches ProblemView::IdOutsideTable {
            sheet,
            cell,
            id,
        } && sheet == t.sheet && cell.col == t.layout.id_column && first <= cell.row < end && !(
        t.layout.start_row <= cell.row <= t.layout.end_row) && id_at(wb, t.sheet, pattern, cell) == Some(id)) by {
            if i < prev.len() {
                assert(cur[i] == prev[i]);
            } else {
                assert((end - 1) as u32 == end - 1);
            }
        }
    }
}

/// The problem is an id in the id column of the table, in a row of its sheet
/// outside the rows of the table.
pub open spec fn outside_id_in(wb: Seq<SheetView>, pattern: Seq<char>, t: TableModel, p: ProblemView) -> bool {
    p matches ProblemView::IdOutsideTable { sheet, cell, id } && sheet == t.sheet && cell.col == t.layout.id_column
        && !(t.layout.start_row <= cell.row <= t.layout.end_row) && id_at(wb, t.sheet, pattern, cell) == Some(id)
}

/// Every reported id outside a table is the id in the id column of one of the
/// tables, in a row of its sheet outside the rows of the table.
pub proof fn lemma_outside_ids_sound(wb: Seq<SheetView>, pattern: Seq<char>, ts: Seq<TableModel>)
    ensures
        forall|i: int|
            0 <= i < outside_problems_of(wb, pattern, ts).len() ==> exists|k: int|
                0 <= k < ts.len() && outside_id_in(wb, pattern, #[trigger] ts[k], #[trigger] outside_problems_of(wb, pattern, ts)[i]),
    decreases ts.len(),
{
    if ts.len() > 0 {
        let q = ts.drop_last();
        lemma_outside_ids_sound(wb, pattern, q);
        let t = ts.last();
        let prev = outside_problems_of(wb, pattern, q);
        let last = ids_outside_of(wb, pattern, t);
        let cur = outside_problems_of(wb, pattern, ts);
        if let Some((first, l)) = rows_of(wb, t.sheet) {
            lemma_outside_rows_sound(wb, pattern, t, first as int, l + 1);
        }
        assert(cur == prev + last);
        assert forall|i: int| 0 <= i < cur.len() implies exists|k: int|
            0 <= k < ts.len() && outside_id_in(wb, pattern, #[trigger] ts[k], #[trigger] cur[i]) by {
            if i < prev.len() {
                assert(cur[i] == prev[i]);
                let k = choose|k: int| 0 <= k < q.len() && outside_id_in(wb, pattern, #[trigger] q[k], prev[i]);
                assert(ts[k] == q[k]);
            } else {
                assert(cur[i] == last[i - prev.len()]);
                assert(ts[ts.len() - 1] == t);
                assert(outside_id_in(wb, pattern, ts[ts.len() - 1], cur[i]));
            }
        }
    }
}

impl Checker<'_> {
    /// Finds sheets added to the workbook or removed from it after the config was written.
    pub(super) fn sheet_problems(&self) -> (r: Vec<Problem>)
        ensures
            problems_view(r@) == sheet_problems_of(self.workbook@, self.config.sheets_view()),
    {
        let names = self.workbook.sheet_names();
        let ghost nv = self.workbook@.map_values(|s: SheetView| s.name);
        let ghost sv = self.config.sheets_view();
        let mut r: Vec<Problem> = Vec::new();
        let mut i: usize = 0;
        while i < names.len()
            invariant
                i <= names.len(),
                names@.len() == nv.len(),
                nv == self.workbook@.map_values(|s: SheetView| s.name),
                sv == self.config.sheets_view(),
                forall|k: int| 0 <= k < names@.len() ==> (#[trigger] names@[k])@ == nv[k],
                problems_view(r@) == unknown_sheets(nv.take(i as int), sv),
            decreases names.len() - i,
        {
            assert(nv.take(i + 1).drop_last() =~= nv.take(i as int));
            assert(names@[i as int]@ == nv[i as int]);
            if !self.config.contains_key(names[i].as_str()) {
                let ghost before = r@;
                r.push(Problem::UnknownSheet { sheet: names[i].clone() });
                assert(problems_view(r@) =~= problems_view(before).push(
                    ProblemView::UnknownSheet { sheet: nv[i as int] },
                ));
            }
            i += 1;
        }
        assert(nv.take(names.len() as int) =~= nv);
        let sheets = self.config.sheets();
        let ghost unknown = r@;
        let mut j: usize = 0;
        while j < sheets.len()
            invariant
                j <= sheets.len(),
                sv == self.config.sheets_view(),
                sv == entries_view(sheets@),
                problems_view(r@) == problems_view(unknown) + missing_sheets(self.workbook@, sv.take(j as int)),
            decreases sheets.len() - j,
        {
            assert(sv.take(j + 1).drop_last() =~= sv.take(j as int));
            assert(sv[j as int].0 == sheets@[j as int].0@);
            if !self.workbook.contains(sheets[j].0.as_str()) {
                let ghost before = r@;
                r.push(Problem::MissingSheet { sheet: sheets[j].0.clone() });
                assert(problems_view(r@) =~= problems_view(before).push(
                    ProblemView::MissingSheet { sheet: sv[j as int].0 },
                ));
            }
            j += 1;
        }
        assert(sv.take(sheets.len() as int) =~= sv);
        r
    }

    /// Finds student ids outside the student tables.
    pub(super) fn outside_problems(&self) -> (r: Vec<Problem>)
        ensures
            problems_view(r@) == outside_problems_of(self.workbook@, self.pattern@, tables_view(self.tables@)),
    {
        let ghost tv = tables_view(self.tables@);
        let mut r: Vec<Problem> = Vec::new();
        let mut i: usize = 0;
        while i < self.tables.len()
            invariant
                i <= self.tables.len(),
                tv == tables_view(self.tables@),
                problems_view(r@) == outside_problems_of(self.workbook@, self.pattern@, tv.take(i as int)),
            decreases self.tables.len() - i,
        {
            assert(tv.take(i + 1).drop_last() =~= tv.take(i as int));
            let ghost before = r@;
            let mut found = self.ids_outside(&self.tables[i]);
            let ghost added = found@;
            r.append(&mut found);
            assert(problems_view(r@) =~= problems_view(before) + problems_view(added));
            i += 1;
        }
        assert(tv.take(self.tables.len() as int) =~= tv);
        r
    }

    fn ids_outside(&self, table: &StudentTable) -> (r: Vec<Problem>)
        ensures
            problems_view(r@) == ids_outside_of(self.workbook@, self.pattern@, table_model(*table)),
    {
        let ghost t = table_model(*table);
        let mut r: Vec<Problem> = Vec::new();
        let (first, last) = match self.workbook.rows(table.sheet.as_str()) {
            Some(rows) => rows,
            None => {
                return r;
            },
        };
        let reader = RowReader::new(self.workbook, table.sheet.as_str(), self.pattern);
        let mut row: u64 = first as u64;
        while row <= last as u64
            invariant
                first <= row <= last as u64 + 1,
                reader.workbook == self.workbook,
                reader.sheet@ == t.sheet,
                reader.pattern == self.pattern,
                t == table_model(*table),
                problems_view(r@) == outside_rows(self.workbook@, self.pattern@, t, first as int, row as int),
            decreases last as u64 + 1 - row,
        {
            let cell = CellRef::new(row as u32, table.layout.id_column);
            if !table.layout.contains_row(row as u32) {
                if let Some(id) = reader.id(cell) {
                    let ghost before = r@;
                    r.push(Problem::IdOutsideTable { sheet: table.sheet.clone(), cell, id });
                    assert(problems_view(r@) =~= problems_view(before).push(
                        ProblemView::IdOutsideTable { sheet: t.sheet, cell, id: id@ },
                    ));
                }
            }
            row += 1;
        }
        r
    }

    /// Finds student ids which appear in multiple rows of a student table.
    pub(super) fn duplicate_problems(&self) -> (r: Vec<Problem>)
        ensures
            problems_view(r@) == duplicate_problems_of(tables_view(self.tables@)),
    {
        let ghost tv = tables_view(self.tables@);
        let mut r: Vec<Problem> = Vec::new();
        let mut i: usize = 0;
        while i < self.tables.len()
            invariant
                i <= self.tables.len(),
                tv == tables_view(self.tables@),
                problems_view(r@) == duplicate_problems_of(tv.take(i as int)),
            decreases self.tables.len() - i,
        {
            assert(tv.take(i + 1).drop_last() =~= tv.take(i as int));
            let table = &self.tables[i];
            let ghost t = tv[i as int];
            let groups = table.duplicates();
            let ghost gv = groups_view(groups@);
            let mut k: usize = 0;
            let ghost before = r@;
            while k < groups.len()
                invariant
                    k <= groups.len(),
                    t == table_model(*table),
                    gv == groups_view(groups@),
                    gv == duplicates_of(t.students, t.layout.id_column),
                    problems_view(r@) == problems_view(before) + duplicated_ids_of(t).take(k as int),
                decreases groups.len() - k,
            {
                let ghost prev = r@;
                assert(gv[k as int] == (groups@[k as int].0@, groups@[k as int].1@));
                r.push(
                    Problem::DuplicatedId {
                        sheet: table.sheet.clone(),
                        id: groups[k].0.clone(),
                        cells: copy_cells(&groups[k].1),
                    },
                );
                assert(duplicated_ids_of(t)[k as int] == ProblemView::DuplicatedId {
                    sheet: t.sheet,
                    id: gv[k as int].0,
                    cells: gv[k as int].1,
                });
                assert(problems_view(r@) =~= problems_view(prev).push(duplicated_ids_of(t)[k as int]));
                assert(duplicated_ids_of(t).take(k + 1) =~= duplicated_ids_of(t).take(k as int).push(
                    duplicated_ids_of(t)[k as int],
                ));
                assert(problems_view(r@) =~= problems_view(before) + duplicated_ids_of(t).take(k + 1));
                k += 1;
            }
            assert(duplicated_ids_of(t).take(groups.len() as int) =~= duplicated_ids_of(t));
            i += 1;
        }
        assert(tv.take(self.tables.len() as int) =~= tv);
        r
    }
}


} // verus!
