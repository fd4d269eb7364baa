//! The student table of a sheet: which row represents which student.
use vstd::prelude::*;
use crate::cell::{CellRef, copy_cells};
use crate::config::TableLayout;
use crate::student::{CellValue, IdPattern, Student, StudentId, StudentView, cell_text, cell_text_of, extract_of};
use crate::text::{
    append,
    chars_lt,
    chars_of,
    entries_view,
    find_entry,
    insert_sorted,
    is_float_chars,
    is_float_text,
    keys_sorted,
    lemma_lookup_index,
    lemma_lookup_some,
    lemma_sorted_insert,
    lemma_values_view_insert,
    lemma_values_view_lookup,
    lookup,
    sorted_insert,
    string_of,
    strings_view,
    trim,
    trim_chars,
    values_view,
};
use crate::workbook::{Resolved, SheetView, Unresolved, Workbook, resolved, rows_of};

verus! {

// ---------------------------------------------------------------------------
// The model of reading rows.

/// The value of the cell after following references, if it has one.
pub open spec fn value_of(wb: Seq<SheetView>, sheet: Seq<char>, cell: CellRef) -> Option<CellValue> {
    match resolved(wb, sheet, cell) {
        Resolved::Value(v) => Some(v),
        _ => None,
    }
}

/// The student id in the cell.
pub open spec fn id_at(wb: Seq<SheetView>, sheet: Seq<char>, pattern: Seq<char>, cell: CellRef) -> Option<Seq<char>> {
    match value_of(wb, sheet, cell) {
        Some(v) => extract_of(pattern, v),
        None => None,
    }
}

/// The trimmed text in the cell.
pub open spec fn text_at(wb: Seq<SheetView>, sheet: Seq<char>, cell: CellRef) -> Option<Seq<char>> {
    match value_of(wb, sheet, cell) {
        Some(v) => cell_text_of(v),
        None => None,
    }
}

/// The cell looks like a student name: a non-empty text which is neither a number
/// nor a student id.
pub open spec fn name_like_at(wb: Seq<SheetView>, sheet: Seq<char>, pattern: Seq<char>, cell: CellRef) -> bool {
    match value_of(wb, sheet, cell) {
        Some(CellValue::String(t)) => {
            let text = trim(t@);
            text.len() > 0 && !is_float_text(text) && extract_of(pattern, CellValue::String(t)) is None
        },
        _ => false,
    }
}

/// The student of the row: the id in the id column and the name in the name column.
pub open spec fn student_at(
    wb: Seq<SheetView>,
    sheet: Seq<char>,
    pattern: Seq<char>,
    layout: TableLayout,
    row: u32,
) -> Option<StudentView> {
    match id_at(wb, sheet, pattern, CellRef { row, col: layout.id_column }) {
        None => None,
        Some(id) => Some(
            StudentView {
                id,
                name: match layout.name_column {
                    Some(col) => text_at(wb, sheet, CellRef { row, col }),
                    None => None,
                },
            },
        ),
    }
}

/// The student rows of the table below the row `end` (exclusive), in order.
pub open spec fn students_below(
    wb: Seq<SheetView>,
    sheet: Seq<char>,
    pattern: Seq<char>,
    layout: TableLayout,
    end: int,
) -> Seq<(u32, StudentView)>
    decreases end - layout.start_row,
{
    if end <= layout.start_row {
        Seq::empty()
    } else {
        let prev = students_below(wb, sheet, pattern, layout, end - 1);
        match student_at(wb, sheet, pattern, layout, (end - 1) as u32) {
            Some(s) => prev.push(((end - 1) as u32, s)),
            None => prev,
        }
    }
}

/// The student rows from `start_row` to `end_row`, in order.
pub open spec fn table_students(
    wb: Seq<SheetView>,
    sheet: Seq<char>,
    pattern: Seq<char>,
    layout: TableLayout,
) -> Seq<(u32, StudentView)> {
    students_below(wb, sheet, pattern, layout, layout.end_row + 1)
}

/// The rows are strictly increasing.
pub open spec fn rows_increasing(s: Seq<(u32, StudentView)>) -> bool {
    forall|i: int, j: int| 0 <= i < j < s.len() ==> #[trigger] s[i].0 < #[trigger] s[j].0
}

/// The student of the row in the student rows.
pub open spec fn row_student(s: Seq<(u32, StudentView)>, row: u32) -> Option<StudentView>
    decreases s.len(),
{
    if s.len() == 0 {
        None
    } else if s[0].0 == row {
        Some(s[0].1)
    } else {
        row_student(s.drop_first(), row)
    }
}

/// The student rows whose rows satisfy the predicate, in order.
pub open spec fn students_where(s: Seq<(u32, StudentView)>, pred: spec_fn(u32) -> bool) -> Seq<(u32, StudentView)>
    decreases s.len(),
{
    if s.len() == 0 {
        s
    } else if pred(s.last().0) {
        students_where(s.drop_last(), pred).push(s.last())
    } else {
        students_where(s.drop_last(), pred)
    }
}

/// The row is in the rows (from `start` to `end` inclusive, unless the range is
/// exhausted).
pub open spec fn in_rows(rows: core::ops::RangeInclusive<u32>, row: u32) -> bool {
    rows@.start <= row && if rows@.exhausted {
        row < rows@.end
    } else {
        row <= rows@.end
    }
}

/// The cells of the id in the id column, in the order of the rows.
pub open spec fn id_cells(s: Seq<(u32, StudentView)>, id: Seq<char>, col: u32) -> Seq<CellRef>
    decreases s.len(),
{
    if s.len() == 0 {
        Seq::empty()
    } else if s.last().1.id == id {
        id_cells(s.drop_last(), id, col).push(CellRef { row: s.last().0, col })
    } else {
        id_cells(s.drop_last(), id, col)
    }
}

/// The cells of each id in the order of the ids: each student row adds its id cell
/// to the cells of its id.
pub open spec fn id_groups(s: Seq<(u32, StudentView)>, col: u32) -> Seq<(Seq<char>, Seq<CellRef>)>
    decreases s.len(),
{
    if s.len() == 0 {
        Seq::empty()
    } else {
        let prev = id_groups(s.drop_last(), col);
        let id = s.last().1.id;
        let cell = CellRef { row: s.last().0, col };
        let cells = match lookup(prev, id) {
            Some(c) => c.push(cell),
            None => seq![cell],
        };
        sorted_insert(prev, id, cells)
    }
}

/// The groups of more than one cell, in order.
pub open spec fn multi_groups(g: Seq<(Seq<char>, Seq<CellRef>)>) -> Seq<(Seq<char>, Seq<CellRef>)>
    decreases g.len(),
{
    if g.len() == 0 {
        g
    } else if g.last().1.len() > 1 {
        multi_groups(g.drop_last()).push(g.last())
    } else {
        multi_groups(g.drop_last())
    }
}

/// The ids which appear in more than one row, in the order of the ids, with their
/// cells in the order of the rows.
pub open spec fn duplicates_of(s: Seq<(u32, StudentView)>, col: u32) -> Seq<(Seq<char>, Seq<CellRef>)> {
    multi_groups(id_groups(s, col))
}

/// The model of the result of [`StudentTable::duplicates`].
pub open spec fn groups_view(r: Seq<(StudentId, Vec<CellRef>)>) -> Seq<(Seq<char>, Seq<CellRef>)> {
    r.map_values(|e: (StudentId, Vec<CellRef>)| (e.0@, e.1@))
}

/// The groups are sorted by the ids, and each id that has cells has the group of
/// its cells.
pub proof fn lemma_id_groups(s: Seq<(u32, StudentView)>, col: u32)
    ensures
        keys_sorted(id_groups(s, col)),
        forall|id: Seq<char>|
            #[trigger] lookup(id_groups(s, col), id) == if id_cells(s, id, col).len() > 0 {
                Some(id_cells(s, id, col))
            } else {
                None
            },
    decreases s.len(),
{
    if s.len() > 0 {
        let prev = id_groups(s.drop_last(), col);
        lemma_id_groups(s.drop_last(), col);
        let id = s.last().1.id;
        let cell = CellRef { row: s.last().0, col };
        let cells = match lookup(prev, id) {
            Some(c) => c.push(cell),
            None => seq![cell],
        };
        lemma_sorted_insert(prev, id, cells);
        assert forall|x: Seq<char>| #[trigger] lookup(id_groups(s, col), x) == if id_cells(s, x, col).len() > 0 {
            Some(id_cells(s, x, col))
        } else {
            None
        } by {
            let earlier = lookup(prev, x);
            if x == id {
                if id_cells(s.drop_last(), x, col).len() == 0 {
                    assert(id_cells(s.drop_last(), x, col) =~= Seq::<CellRef>::empty());
                    assert(id_cells(s, x, col) =~= seq![cell]);
                }
            }
        }
    }
}

/// The duplicated ids: each has more than one cell, and they are all the ids of
/// more than one cell, in the order of the ids.
pub proof fn lemma_duplicates_of(s: Seq<(u32, StudentView)>, col: u32)
    ensures
        forall|a: int, b: int|
            0 <= a < b < duplicates_of(s, col).len() ==> chars_lt(
                #[trigger] duplicates_of(s, col)[a].0,
                #[trigger] duplicates_of(s, col)[b].0,
            ),
        forall|a: int|
            0 <= a < duplicates_of(s, col).len() ==> (#[trigger] duplicates_of(s, col)[a]).1 == id_cells(
                s,
                duplicates_of(s, col)[a].0,
                col,
            ) && duplicates_of(s, col)[a].1.len() > 1,
        forall|id: Seq<char>|
            #[trigger] id_cells(s, id, col).len() > 1 ==> duplicates_of(s, col).contains(
                (id, id_cells(s, id, col)),
            ),
{
    let g = id_groups(s, col);
    lemma_id_groups(s, col);
    lemma_multi_groups_of(g);
    assert forall|a: int| 0 <= a < duplicates_of(s, col).len() implies (#[trigger] duplicates_of(
        s,
        col,
    )[a]).1 == id_cells(s, duplicates_of(s, col)[a].0, col) && duplicates_of(s, col)[a].1.len() > 1 by {
        let i = choose|i: int| 0 <= i < g.len() && g[i] == duplicates_of(s, col)[a];
        lemma_lookup_index(g, i);
        assert(lookup(g, g[i].0) == Some(g[i].1));
    }
    assert forall|id: Seq<char>| #[trigger] id_cells(s, id, col).len() > 1 implies duplicates_of(
        s,
        col,
    ).contains((id, id_cells(s, id, col))) by {
        assert(lookup(g, id) == Some(id_cells(s, id, col)));
        lemma_lookup_some(g, id);
        let i = choose|i: int| 0 <= i < g.len() && #[trigger] g[i].0 == id && g[i].1 == id_cells(s, id, col);
        assert(g[i] == (id, id_cells(s, id, col)));
    }
}

/// The groups of more than one cell keep their order, and they are all such groups.
proof fn lemma_multi_groups_of(g: Seq<(Seq<char>, Seq<CellRef>)>)
    requires
        keys_sorted(g),
    ensures
        forall|a: int, b: int|
            0 <= a < b < multi_groups(g).len() ==> chars_lt(
                #[trigger] multi_groups(g)[a].0,
                #[trigger] multi_groups(g)[b].0,
            ),
        forall|a: int|
            0 <= a < multi_groups(g).len() ==> exists|i: int|
                0 <= i < g.len() && g[i] == #[trigger] multi_groups(g)[a],
        forall|i: int| 0 <= i < g.len() && (#[trigger] g[i]).1.len() > 1 ==> multi_groups(g).contains(g[i]),
        forall|a: int| 0 <= a < multi_groups(g).len() ==> (#[trigger] multi_groups(g)[a]).1.len() > 1,
    decreases g.len(),
{
    if g.len() > 0 {
        let h = g.drop_last();
        assert(keys_sorted(h)) by {
            assert forall|i: int, j: int| 0 <= i < j < h.len() implies chars_lt(
                #[trigger] h[i].0,
                #[trigger] h[j].0,
            ) by {
                assert(h[i] == g[i] && h[j] == g[j]);
            }
        }
        lemma_multi_groups_of(h);
        let prev = multi_groups(h);
        let cur = multi_groups(g);
        assert forall|a: int| 0 <= a < prev.len() implies exists|i: int|
            0 <= i < g.len() && g[i] == #[trigger] prev[a] by {
            let i = choose|i: int| 0 <= i < h.len() && h[i] == #[trigger] prev[a];
            assert(g[i] == h[i]);
        }
        if g.last().1.len() > 1 {
            assert(cur == prev.push(g.last()));
            assert forall|a: int, b: int| 0 <= a < b < cur.len() implies chars_lt(
                #[trigger] cur[a].0,
                #[trigger] cur[b].0,
            ) by {
                if b == cur.len() - 1 {
                    assert(cur[a] == prev[a]);
                    let i = choose|i: int| 0 <= i < h.len() && h[i] == #[trigger] prev[a];
                    assert(g[i] == h[i]);
                    assert(chars_lt(g[i].0, g[g.len() - 1].0));
                } else {
                    assert(cur[a] == prev[a] && cur[b] == prev[b]);
                }
            }
            assert forall|a: int| 0 <= a < cur.len() implies exists|i: int|
                0 <= i < g.len() && g[i] == #[trigger] cur[a] by {
                if a < prev.len() {
                    assert(cur[a] == prev[a]);
                } else {
                    assert(g[g.len() - 1] == cur[a]);
                }
            }
            assert forall|i: int| 0 <= i < g.len() && (#[trigger] g[i]).1.len() > 1 implies cur.contains(g[i]) by {
                if i < g.len() - 1 {
                    assert(h[i] == g[i]);
                    let a = choose|a: int| 0 <= a < prev.len() && prev[a] == h[i];
                    assert(cur[a] == prev[a]);
                } else {
                    assert(cur[cur.len() - 1] == g[i]);
                }
            }
            assert forall|a: int| 0 <= a < cur.len() implies (#[trigger] cur[a]).1.len() > 1 by {
                if a < prev.len() {
                    assert(cur[a] == prev[a]);
                }
            }
        } else {
            assert forall|i: int| 0 <= i < g.len() && (#[trigger] g[i]).1.len() > 1 implies cur.contains(g[i]) by {
                assert(h[i] == g[i]);
            }
        }
    }
}

pub proof fn lemma_students_below(
    wb: Seq<SheetView>,
    sheet: Seq<char>,
    pattern: Seq<char>,
    layout: TableLayout,
    end: int,
)
    requires
        end <= u32::MAX as int + 1,
    ensures
        rows_increasing(students_below(wb, sheet, pattern, layout, end)),
        forall|i: int|
            0 <= i < students_below(wb, sheet, pattern, layout, end).len() ==> layout.start_row
                <= (#[trigger] students_below(wb, sheet, pattern, layout, end)[i]).0 < end,
    decreases end - layout.start_row,
{
    if end > layout.start_row {
        lemma_students_below(wb, sheet, pattern, layout, end - 1);
        let prev = students_below(wb, sheet, pattern, layout, end - 1);
        let cur = students_below(wb, sheet, pattern, layout, end);
        if let Some(st) = student_at(wb, sheet, pattern, layout, (end - 1) as u32) {
            assert(cur == prev.push(((end - 1) as u32, st)));
            assert forall|i: int, j: int| 0 <= i < j < cur.len() implies #[trigger] cur[i].0
                < #[trigger] cur[j].0 by {
                if j == cur.len() - 1 {
                    assert(cur[i] == prev[i]);
                } else {
                    assert(cur[i] == prev[i] && cur[j] == prev[j]);
                }
            }
            assert forall|i: int| 0 <= i < cur.len() implies layout.start_row <= (
            #[trigger] cur[i]).0 < end by {
                if i < prev.len() {
                    assert(cur[i] == prev[i]);
                }
            }
        }
    }
}


/// Looking up a row after adding a student row: an earlier entry of the row wins.
proof fn lemma_row_student_push(s: Seq<(u32, StudentView)>, x: (u32, StudentView), row: u32)
    ensures
        row_student(s.push(x), row) == match row_student(s, row) {
            Some(v) => Some(v),
            None => if x.0 == row {
                Some(x.1)
            } else {
                None
            },
        },
    decreases s.len(),
{
    let t = s.push(x);
    if s.len() > 0 {
        assert(t[0] == s[0]);
        assert(t.drop_first() =~= s.drop_first().push(x));
        lemma_row_student_push(s.drop_first(), x, row);
        if s[0].0 != row {
            assert(row_student(t, row) == row_student(t.drop_first(), row));
            assert(row_student(s, row) == row_student(s.drop_first(), row));
        }
    } else {
        assert(t[0] == x);
        let e = t.drop_first();
        assert(e =~= Seq::<(u32, StudentView)>::empty());
        assert(row_student(e, row) is None);
        assert(row_student(s, row) is None);
    }
}

proof fn lemma_row_student_below(
    wb: Seq<SheetView>,
    sheet: Seq<char>,
    pattern: Seq<char>,
    layout: TableLayout,
    end: int,
    row: u32,
)
    requires
        end <= u32::MAX as int + 1,
    ensures
        row_student(students_below(wb, sheet, pattern, layout, end), row) == if layout.start_row <= row
            < end {
            student_at(wb, sheet, pattern, layout, row)
        } else {
            None
        },
    decreases end - layout.start_row,
{
    if end > layout.start_row {
        lemma_row_student_below(wb, sheet, pattern, layout, end - 1, row);
        let prev = students_below(wb, sheet, pattern, layout, end - 1);
        if let Some(st) = student_at(wb, sheet, pattern, layout, (end - 1) as u32) {
            lemma_row_student_push(prev, ((end - 1) as u32, st), row);
        }
    }
}

/// A table built from a layout has, for each row of the layout, the student of
/// that row (the id that the pattern extracts from the id cell, and the text of
/// the name cell if the layout has a name column), and no student outside the
/// rows of the layout.
pub proof fn lemma_table_rows(
    wb: Seq<SheetView>,
    sheet: Seq<char>,
    pattern: Seq<char>,
    layout: TableLayout,
    row: u32,
)
    ensures
        row_student(table_students(wb, sheet, pattern, layout), row) == if layout.start_row <= row
            <= layout.end_row {
            student_at(wb, sheet, pattern, layout, row)
        } else {
            None
        },
{
    lemma_row_student_below(wb, sheet, pattern, layout, layout.end_row + 1, row);
}

/// The student of a row is that of an entry of the row, and a row with an entry
/// has a student.
pub proof fn lemma_row_student_index(s: Seq<(u32, StudentView)>, row: u32)
    ensures
        row_student(s, row) matches Some(v) ==> exists|i: int| 0 <= i < s.len() && #[trigger] s[i] == (row, v),
        forall|i: int| 0 <= i < s.len() && #[trigger] s[i].0 == row ==> row_student(s, row) is Some,
    decreases s.len(),
{
    if s.len() > 0 {
        lemma_row_student_index(s.drop_first(), row);
        if s[0].0 != row {
            if let Some(v) = row_student(s, row) {
                let i = choose|i: int| 0 <= i < s.drop_first().len() && #[trigger] s.drop_first()[i] == (row, v);
                assert(s[i + 1] == s.drop_first()[i]);
            }
            assert forall|i: int| 0 <= i < s.len() && #[trigger] s[i].0 == row implies row_student(s, row) is Some by {
                assert(i > 0);
                assert(s.drop_first()[i - 1] == s[i]);
            }
        } else {
            assert(s[0] == (row, s[0].1));
        }
    }
}

/// The student rows that satisfy a predicate are the entries that satisfy it, in
/// the same order.
pub proof fn lemma_students_where(s: Seq<(u32, StudentView)>, pred: spec_fn(u32) -> bool)
    ensures
        forall|k: int|
            0 <= k < students_where(s, pred).len() ==> exists|i: int|
                0 <= i < s.len() && #[trigger] students_where(s, pred)[k] == s[i] && pred(s[i].0),
        forall|i: int| 0 <= i < s.len() && pred(#[trigger] s[i].0) ==> students_where(s, pred).contains(s[i]),
        rows_increasing(s) ==> rows_increasing(students_where(s, pred)),
    decreases s.len(),
{
    if s.len() > 0 {
        let p = s.drop_last();
        lemma_students_where(p, pred);
        let q = students_where(p, pred);
        let w = students_where(s, pred);
        let n = s.len() - 1;
        assert(s.last() == s[n]);
        if pred(s[n].0) {
            assert(w == q.push(s[n]));
        } else {
            assert(w == q);
        }
        assert forall|k: int| 0 <= k < w.len() implies exists|i: int|
            0 <= i < s.len() && #[trigger] w[k] == s[i] && pred(s[i].0) by {
            if k < q.len() {
                assert(w[k] == q[k]);
                let i = choose|i: int| 0 <= i < p.len() && #[trigger] q[k] == p[i] && pred(p[i].0);
                assert(p[i] == s[i]);
            } else {
                assert(w[k] == s[n]);
            }
        }
        assert forall|i: int| 0 <= i < s.len() && pred(#[trigger] s[i].0) implies w.contains(s[i]) by {
            if i < n {
                assert(p[i] == s[i]);
                assert(q.contains(p[i]));
                let k = choose|k: int| 0 <= k < q.len() && q[k] == p[i];
                assert(w[k] == q[k]);
            } else {
                assert(w[w.len() - 1] == s[n]);
            }
        }
        if rows_increasing(s) {
            assert(rows_increasing(p)) by {
                assert forall|a: int, b: int| 0 <= a < b < p.len() implies #[trigger] p[a].0 < #[trigger] p[b].0 by {
                    assert(p[a] == s[a] && p[b] == s[b]);
                }
            }
            assert forall|a: int, b: int| 0 <= a < b < w.len() implies #[trigger] w[a].0 < #[trigger] w[b].0 by {
                assert(w[a] == q[a]);
                if b < q.len() {
                    assert(w[b] == q[b]);
                } else {
                    let i = choose|i: int| 0 <= i < p.len() && #[trigger] q[a] == p[i] && pred(p[i].0);
                    assert(p[i] == s[i]);
                    assert(w[b] == s[n]);
                }
            }
        }
    }
}

/// The name of the reason why a value cannot be resolved.
pub open spec fn reason_name(u: Unresolved) -> Seq<char> {
    match u {
        Unresolved::NotSimple => "NotSimple"@,
        Unresolved::TooDeep => "TooDeep"@,
    }
}

/// The warning about a student id which cannot be resolved.
pub open spec fn unresolved_message(sheet: Seq<char>, cell: CellRef, u: Unresolved) -> Seq<char> {
    sheet + "!"@ + cell.a1() + ": the student id cannot be resolved ("@ + reason_name(u)
        + "); open and save the file in Excel"@
}

/// The warning about the cell if its value cannot be resolved.
pub open spec fn unresolved_warning_at(wb: Seq<SheetView>, sheet: Seq<char>, cell: CellRef) -> Option<
    Seq<char>,
> {
    match resolved(wb, sheet, cell) {
        Resolved::Unresolved(u) => Some(unresolved_message(sheet, cell, u)),
        _ => None,
    }
}

/// Reads student ids and names from the cells of a sheet.
#[derive(Clone, Copy)]
pub struct RowReader<'a> {
    pub workbook: &'a Workbook,
    pub sheet: &'a str,
    pub pattern: &'a IdPattern,
}

pub open spec fn id_view(id: Option<StudentId>) -> Option<Seq<char>> {
    match id {
        Some(id) => Some(id@),
        None => None,
    }
}

impl<'a> RowReader<'a> {
    pub fn new(workbook: &'a Workbook, sheet: &'a str, pattern: &'a IdPattern) -> (r: Self)
        ensures
            r.workbook == workbook,
            r.sheet == sheet,
            r.pattern == pattern,
    {
        RowReader { workbook, sheet, pattern }
    }

    fn student(&self, layout: &TableLayout, row: u32) -> (r: Option<Student>)
        ensures
            match r {
                Some(s) => student_at(self.workbook@, self.sheet@, self.pattern@, *layout, row) == Some(s@),
                None => student_at(self.workbook@, self.sheet@, self.pattern@, *layout, row) is None,
            },
    {
        let id = self.id(CellRef::new(row, layout.id_column))?;
        let name = match layout.name_column {
            Some(col) => self.text(CellRef::new(row, col)),
            None => None,
        };
        Some(Student { id, name })
    }

    /// Reads the student id in the cell without warnings (for estimating layouts).
    pub fn quiet_id(&self, cell: CellRef) -> (r: Option<StudentId>)
        ensures
            id_view(r) == id_at(self.workbook@, self.sheet@, self.pattern@, cell),
    {
        match self.workbook.resolve(self.sheet, cell) {
            Resolved::Value(value) => self.pattern.extract(&value),
            _ => None,
        }
    }

    /// Returns true if the cell looks like a student name: a non-empty text
    /// which is neither a number nor a student id.
    pub fn is_name_like(&self, cell: CellRef) -> (r: bool)
        ensures
            r == name_like_at(self.workbook@, self.sheet@, self.pattern@, cell),
    {
        let value = match self.workbook.resolve(self.sheet, cell) {
            Resolved::Value(v) => v,
            _ => {
                return false;
            },
        };
        let text = match &value {
            CellValue::String(t) => trim_chars(&chars_of(t.as_str())),
            _ => {
                return false;
            },
        };
        text.len() > 0 && !is_float_chars(&text) && self.pattern.extract(&value).is_none()
    }

    /// The warning to give if the value of the cell (a student id) cannot be
    /// resolved.
    pub fn unresolved_warning(&self, cell: CellRef) -> (r: Option<String>)
        ensures
            crate::formula::opt_view(r) == unresolved_warning_at(self.workbook@, self.sheet@, cell),
    {
        match self.workbook.resolve(self.sheet, cell) {
            Resolved::Unresolved(u) => {
                let mut t = chars_of(self.sheet);
                append(&mut t, &chars_of("!"));
                append(&mut t, &cell.to_chars());
                append(&mut t, &chars_of(": the student id cannot be resolved ("));
                match u {
                    Unresolved::NotSimple => append(&mut t, &chars_of("NotSimple")),
                    Unresolved::TooDeep => append(&mut t, &chars_of("TooDeep")),
                }
                append(&mut t, &chars_of("); open and save the file in Excel"));
                Some(string_of(&t))
            },
            _ => None,
        }
    }

    /// Reads the student id in the cell.
    pub fn id(&self, cell: CellRef) -> (r: Option<StudentId>)
        ensures
            id_view(r) == id_at(self.workbook@, self.sheet@, self.pattern@, cell),
    {
        self.quiet_id(cell)
    }

    fn text(&self, cell: CellRef) -> (r: Option<String>)
        ensures
            crate::formula::opt_view(r) == text_at(self.workbook@, self.sheet@, cell),
    {
        match self.workbook.resolve(self.sheet, cell) {
            Resolved::Value(value) => cell_text(&value),
            _ => None,
        }
    }
}

/// The students in the rows of a sheet.
#[derive(Debug)]
pub struct StudentTable {
    pub sheet: String,
    pub layout: TableLayout,
    /// The student rows, in the order of the rows.
    pub students: Vec<(u32, Student)>,
}

impl View for StudentTable {
    type V = Seq<(u32, StudentView)>;

    /// The student rows, in the order of the rows.
    open spec fn view(&self) -> Seq<(u32, StudentView)> {
        self.students@.map_values(|e: (u32, Student)| (e.0, e.1@))
    }
}

impl StudentTable {
    /// The student rows are in order.
    pub open spec fn wf(&self) -> bool {
        rows_increasing(self@)
    }

    /// Reads the students in the rows from `start_row` to `end_row`.
    pub fn build(sheet: &str, layout: TableLayout, workbook: &Workbook, pattern: &IdPattern) -> (r: Self)
        ensures
            r.sheet@ == sheet@,
            r.layout == layout,
            r@ == table_students(workbook@, sheet@, pattern@, layout),
            r.wf(),
    {
        let reader = RowReader::new(workbook, sheet, pattern);
        let mut students: Vec<(u32, Student)> = Vec::new();
        let mut row: u64 = layout.start_row as u64;
        while row <= layout.end_row as u64
            invariant
                layout.start_row <= row,
                row <= layout.end_row as u64 + 1 || row == layout.start_row,
                reader.workbook == workbook,
                reader.sheet == sheet,
                reader.pattern == pattern,
                students@.map_values(|e: (u32, Student)| (e.0, e.1@)) == students_below(
                    workbook@,
                    sheet@,
                    pattern@,
                    layout,
                    row as int,
                ),
            decreases layout.end_row as u64 + 1 - row,
        {
            let ghost before = students@;
            if let Some(s) = reader.student(&layout, row as u32) {
                students.push((row as u32, s));
                assert(students@.map_values(|e: (u32, Student)| (e.0, e.1@)) =~= before.map_values(
                    |e: (u32, Student)| (e.0, e.1@),
                ).push((row as u32, s@)));
            }
            row += 1;
        }
        proof {
            lemma_students_below(workbook@, sheet@, pattern@, layout, layout.end_row + 1);
            if row != layout.end_row as u64 + 1 {
                assert(students_below(workbook@, sheet@, pattern@, layout, layout.end_row + 1)
                    =~= Seq::<(u32, StudentView)>::empty());
            }
        }
        StudentTable { sheet: String::from_str(sheet), layout, students }
    }

    /// Returns the student of the row, if the row is a student row.
    pub fn student(&self, row: u32) -> (r: Option<&Student>)
        ensures
            match r {
                Some(s) => row_student(self@, row) == Some(s@),
                None => row_student(self@, row) is None,
            },
    {
        let ghost v = self@;
        let mut i: usize = 0;
        assert(v.skip(0) =~= v);
        while i < self.students.len()
            invariant
                i <= self.students.len(),
                v == self@,
                v.len() == self.students.len(),
                row_student(v, row) == row_student(v.skip(i as int), row),
            decreases self.students.len() - i,
        {
            assert(v.skip(i as int).drop_first() =~= v.skip(i + 1));
            assert(v[i as int] == (self.students@[i as int].0, self.students@[i as int].1@));
            if self.students[i].0 == row {
                return Some(&self.students[i].1);
            }
            i += 1;
        }
        None
    }

    /// Returns the student rows in the given rows, in order.
    pub fn students_in(&self, rows: core::ops::RangeInclusive<u32>) -> (r: Vec<(u32, &Student)>)
        ensures
            r@.map_values(|e: (u32, &Student)| (e.0, e.1@)) == students_where(
                self@,
                |row: u32| in_rows(rows, row),
            ),
    {
        let ghost v = self@;
        let ghost pred = |row: u32| in_rows(rows, row);
        let mut r: Vec<(u32, &Student)> = Vec::new();
        let mut i: usize = 0;
        while i < self.students.len()
            invariant
                i <= self.students.len(),
                v == self@,
                v.len() == self.students.len(),
                pred == (|row: u32| in_rows(rows, row)),
                r@.map_values(|e: (u32, &Student)| (e.0, e.1@)) == students_where(v.take(i as int), pred),
            decreases self.students.len() - i,
        {
            assert(v.take(i + 1).drop_last() =~= v.take(i as int));
            assert(v[i as int] == (self.students@[i as int].0, self.students@[i as int].1@));
            let ghost before = r@;
            if rows.contains(&self.students[i].0) {
                r.push((self.students[i].0, &self.students[i].1));
                assert(r@.map_values(|e: (u32, &Student)| (e.0, e.1@)) =~= before.map_values(
                    |e: (u32, &Student)| (e.0, e.1@),
                ).push(v[i as int]));
            }
            i += 1;
        }
        assert(v.take(self.students.len() as int) =~= v);
        r
    }

    /// Returns the ids which appear in more than one row, in the order of the ids,
    /// with their cells in the order of the rows.
    pub fn duplicates(&self) -> (r: Vec<(StudentId, Vec<CellRef>)>)
        ensures
            groups_view(r@) == duplicates_of(self@, self.layout.id_column),
            forall|a: int, b: int| 0 <= a < b < r.len() ==> chars_lt(#[trigger] r@[a].0@, #[trigger] r@[b].0@),
            forall|a: int|
                0 <= a < r.len() ==> (#[trigger] r@[a]).1@ == id_cells(self@, r@[a].0@, self.layout.id_column)
                    && r@[a].1@.len() > 1,
            forall|id: Seq<char>|
                #[trigger] id_cells(self@, id, self.layout.id_column).len() > 1 ==> exists|a: int|
                    0 <= a < r.len() && (#[trigger] r@[a]).0@ == id,
    {
        let col = self.layout.id_column;
        let ghost v = self@;
        let mut groups: Vec<(String, Vec<CellRef>)> = Vec::new();
        let mut i: usize = 0;
        while i < self.students.len()
            invariant
                i <= self.students.len(),
                v == self@,
                v.len() == self.students.len(),
                col == self.layout.id_column,
                keys_sorted(entries_view(groups@)),
                values_view(entries_view(groups@)) == id_groups(v.take(i as int), col),
            decreases self.students.len() - i,
        {
            assert(v.take(i + 1).drop_last() =~= v.take(i as int));
            assert(v[i as int] == (self.students@[i as int].0, self.students@[i as int].1@));
            let id = &self.students[i].1.id;
            let cell = CellRef::new(self.students[i].0, col);
            let key = chars_of(id.0.as_str());
            let cells = match find_entry(&groups, &key) {
                Some(p) => {
                    let mut c = copy_cells(&groups[p].1);
                    c.push(cell);
                    c
                },
                None => {
                    let mut c = Vec::new();
                    c.push(cell);
                    c
                },
            };
            proof {
                lemma_sorted_insert(entries_view(groups@), id@, cells);
                lemma_values_view_insert(entries_view(groups@), id@, cells);
                lemma_values_view_lookup(entries_view(groups@), id@);
            }
            insert_sorted(&mut groups, id.0.clone(), cells);
            i += 1;
        }
        assert(v.take(self.students.len() as int) =~= v);
        let ghost gv = values_view(entries_view(groups@));
        let mut r: Vec<(StudentId, Vec<CellRef>)> = Vec::new();
        let mut k: usize = 0;
        while k < groups.len()
            invariant
                k <= groups.len(),
                gv == values_view(entries_view(groups@)),
                groups_view(r@) == multi_groups(gv.take(k as int)),
            decreases groups.len() - k,
        {
            let ghost before = r@;
            assert(gv.take(k + 1).drop_last() =~= gv.take(k as int));
            if groups[k].1.len() > 1 {
                r.push((StudentId(groups[k].0.clone()), copy_cells(&groups[k].1)));
                assert(groups_view(r@) =~= groups_view(before).push(gv[k as int]));
            }
            k += 1;
        }
        proof {
            assert(gv.take(groups.len() as int) =~= gv);
            lemma_duplicates_of(v, col);
            let d = duplicates_of(v, col);
            assert forall|a: int| 0 <= a < r.len() implies (#[trigger] r@[a]).0@ == d[a].0 && r@[a].1@ == d[a].1 by {
                assert(groups_view(r@)[a] == (r@[a].0@, r@[a].1@));
            }
            assert forall|id: Seq<char>| #[trigger] id_cells(v, id, col).len() > 1 implies exists|a: int|
                0 <= a < r.len() && (#[trigger] r@[a]).0@ == id by {
                let a = choose|a: int| 0 <= a < d.len() && d[a] == (id, id_cells(v, id, col));
                assert(r@[a].0@ == id);
            }
        }
        r
    }

    /// Returns true if the cell holds a student id of this table.
    pub fn is_id_cell(&self, cell: CellRef) -> (r: bool)
        ensures
            r == (cell.col == self.layout.id_column && row_student(self@, cell.row) is Some),
    {
        cell.col == self.layout.id_column && self.student(cell.row).is_some()
    }
}

/// The warnings about the student ids which cannot be resolved in the id column in
/// the rows from `first` below `end`, except those in `0..=` the layout's rows if
/// `outside` is set, and only those if it is not.
pub open spec fn unresolved_rows(
    wb: Seq<SheetView>,
    sheet: Seq<char>,
    layout: TableLayout,
    outside: bool,
    first: int,
    end: int,
) -> Seq<Seq<char>>
    decreases end - first,
{
    if end <= first {
        Seq::empty()
    } else {
        let prev = unresolved_rows(wb, sheet, layout, outside, first, end - 1);
        let row = (end - 1) as u32;
        let inside = layout.start_row <= row <= layout.end_row;
        if inside == outside {
            prev
        } else {
            match unresolved_warning_at(wb, sheet, CellRef { row, col: layout.id_column }) {
                Some(w) => prev.push(w),
                None => prev,
            }
        }
    }
}

/// The warnings about the unresolved student ids outside the table.
pub open spec fn unresolved_outside_of(wb: Seq<SheetView>, sheet: Seq<char>, layout: TableLayout) -> Seq<
    Seq<char>,
> {
    match rows_of(wb, sheet) {
        None => Seq::empty(),
        Some((first, last)) => unresolved_rows(wb, sheet, layout, true, first as int, last + 1),
    }
}

/// The warnings about the unresolved student ids in the table.
pub open spec fn unresolved_inside_of(wb: Seq<SheetView>, sheet: Seq<char>, layout: TableLayout) -> Seq<
    Seq<char>,
> {
    unresolved_rows(wb, sheet, layout, false, layout.start_row as int, layout.end_row + 1)
}

/// The warnings about the student ids which cannot be resolved, outside the table
/// (`outside`) or in it.
pub fn unresolved_warnings(reader: &RowReader, layout: &TableLayout, outside: bool) -> (r: Vec<String>)
    ensures
        strings_view(r@) == if outside {
            unresolved_outside_of(reader.workbook@, reader.sheet@, *layout)
        } else {
            unresolved_inside_of(reader.workbook@, reader.sheet@, *layout)
        },
{
    let (first, last) = if outside {
        match reader.workbook.rows(reader.sheet) {
            Some(rows) => rows,
            None => {
                return Vec::new();
            },
        }
    } else {
        (layout.start_row, layout.end_row)
    };
    let mut r: Vec<String> = Vec::new();
    if first > last {
        return r;
    }
    let mut row: u64 = first as u64;
    while row <= last as u64
        invariant
            first <= row <= last as u64 + 1,
            strings_view(r@) == unresolved_rows(
                reader.workbook@,
                reader.sheet@,
                *layout,
                outside,
                first as int,
                row as int,
            ),
        decreases last as u64 + 1 - row,
    {
        if layout.contains_row(row as u32) != outside {
            if let Some(w) = reader.unresolved_warning(CellRef::new(row as u32, layout.id_column)) {
                let ghost before = r@;
                r.push(w);
                assert(strings_view(r@) =~= strings_view(before).push(w@));
            }
        }
        row += 1;
    }
    r
}

} // verus!
