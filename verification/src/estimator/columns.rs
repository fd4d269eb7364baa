//! Estimates the id column, the name column, and the rows of a student table.
use vstd::prelude::*;
use super::{SheetAnalysis, SheetAnalysisView, TableEstimate, TableEstimateView};
use crate::cell::{CellRef, column_chars, column_name_of};
use crate::config::TableLayout;
use crate::problem::cells_text;
use crate::student::IdPattern;
use crate::table::{
    RowReader,
    StudentTable,
    duplicates_of,
    groups_view,
    id_at,
    name_like_at,
    table_students,
    unresolved_inside_of,
    unresolved_outside_of,
    unresolved_warnings,
};
use crate::text::{append, chars_of, string_of, strings_view};
use crate::workbook::{SheetView, Workbook, rows_of};

verus! {

// ---------------------------------------------------------------------------
// The model of the estimation.

/// The rows from `first` below `end` which have student ids in the column.
pub open spec fn id_rows_of(
    wb: Seq<SheetView>,
    sheet: Seq<char>,
    pattern: Seq<char>,
    col: u32,
    first: int,
    end: int,
) -> Seq<u32>
    decreases end - first,
{
    if end <= first {
        Seq::empty()
    } else {
        let prev = id_rows_of(wb, sheet, pattern, col, first, end - 1);
        if id_at(wb, sheet, pattern, CellRef { row: (end - 1) as u32, col }) is Some {
            prev.push((end - 1) as u32)
        } else {
            prev
        }
    }
}

/// The rows of the sheet (`rows`, first and last) which have student ids in the column.
pub open spec fn column_ids(
    wb: Seq<SheetView>,
    sheet: Seq<char>,
    pattern: Seq<char>,
    rows: (u32, u32),
    col: u32,
) -> Seq<u32> {
    id_rows_of(wb, sheet, pattern, col, rows.0 as int, rows.1 + 1)
}

/// The column in `0..n` with the most student ids (the smallest on ties), and the
/// number of its ids.
pub open spec fn best_id_column(
    wb: Seq<SheetView>,
    sheet: Seq<char>,
    pattern: Seq<char>,
    rows: (u32, u32),
    n: int,
) -> (u32, nat)
    decreases n,
{
    if n <= 1 {
        (0, column_ids(wb, sheet, pattern, rows, 0).len())
    } else {
        let (c, k) = best_id_column(wb, sheet, pattern, rows, n - 1);
        let m = column_ids(wb, sheet, pattern, rows, (n - 1) as u32).len();
        if m > k {
            ((n - 1) as u32, m)
        } else {
            (c, k)
        }
    }
}

/// The other columns in `0..n` with as many student ids as the chosen one, in order.
pub open spec fn tied_columns_of(
    wb: Seq<SheetView>,
    sheet: Seq<char>,
    pattern: Seq<char>,
    rows: (u32, u32),
    n: int,
    best: (u32, nat),
) -> Seq<u32>
    decreases n,
{
    if n <= 0 {
        Seq::empty()
    } else {
        let prev = tied_columns_of(wb, sheet, pattern, rows, n - 1, best);
        let c = (n - 1) as u32;
        if c != best.0 && column_ids(wb, sheet, pattern, rows, c).len() == best.1 {
            prev.push(c)
        } else {
            prev
        }
    }
}

/// The number of name-like cells in the column in the rows.
pub open spec fn name_count(
    wb: Seq<SheetView>,
    sheet: Seq<char>,
    pattern: Seq<char>,
    rows: Seq<u32>,
    col: u32,
) -> nat
    decreases rows.len(),
{
    if rows.len() == 0 {
        0
    } else {
        name_count(wb, sheet, pattern, rows.drop_last(), col) + if name_like_at(
            wb,
            sheet,
            pattern,
            CellRef { row: rows.last(), col },
        ) {
            1nat
        } else {
            0nat
        }
    }
}

/// The column in `0..n` other than the id column with the most name-like cells in
/// the rows (the smallest on ties), and their number; `None` if no column has one.
pub open spec fn best_name_column(
    wb: Seq<SheetView>,
    sheet: Seq<char>,
    pattern: Seq<char>,
    rows: Seq<u32>,
    id_column: u32,
    n: int,
) -> Option<(u32, nat)>
    decreases n,
{
    if n <= 0 {
        None
    } else {
        let prev = best_name_column(wb, sheet, pattern, rows, id_column, n - 1);
        let c = (n - 1) as u32;
        let k = name_count(wb, sheet, pattern, rows, c);
        if c == id_column || k == 0 {
            prev
        } else {
            match prev {
                None => Some((c, k)),
                Some((pc, pk)) => if k > pk {
                    Some((c, k))
                } else {
                    prev
                },
            }
        }
    }
}

/// The estimated student table of the sheet, searching the columns
/// `0..=max_column`, or `None` if no student ids are found.
pub open spec fn estimate_of(wb: Seq<SheetView>, sheet: Seq<char>, pattern: Seq<char>, max_column: u32) -> Option<
    TableEstimateView,
> {
    match rows_of(wb, sheet) {
        None => None,
        Some(rows) => {
            let n = max_column + 1;
            let best = best_id_column(wb, sheet, pattern, rows, n);
            if best.1 == 0 {
                None
            } else {
                let ids = column_ids(wb, sheet, pattern, rows, best.0);
                let name = best_name_column(wb, sheet, pattern, ids, best.0, n);
                Some(
                    TableEstimateView {
                        layout: TableLayout {
                            id_column: best.0,
                            name_column: match name {
                                Some((c, _)) => Some(c),
                                None => None,
                            },
                            start_row: ids[0],
                            end_row: ids.last(),
                        },
                        ids: ids.len(),
                        names: match name {
                            Some((_, k)) => k,
                            None => 0,
                        },
                        tied_columns: tied_columns_of(wb, sheet, pattern, rows, n, best),
                    },
                )
            }
        },
    }
}

// ---------------------------------------------------------------------------
// The laws of the estimation.

proof fn lemma_id_rows_of(
    wb: Seq<SheetView>,
    sheet: Seq<char>,
    pattern: Seq<char>,
    col: u32,
    first: int,
    end: int,
)
    requires
        0 <= first,
        end <= u32::MAX as int + 1,
    ensures
        forall|i: int, j: int|
            0 <= i < j < id_rows_of(wb, sheet, pattern, col, first, end).len() ==> #[trigger] id_rows_of(
                wb,
                sheet,
                pattern,
                col,
                first,
                end,
            )[i] < #[trigger] id_rows_of(wb, sheet, pattern, col, first, end)[j],
        forall|i: int|
            0 <= i < id_rows_of(wb, sheet, pattern, col, first, end).len() ==> first <= #[trigger] id_rows_of(
                wb,
                sheet,
                pattern,
                col,
                first,
                end,
            )[i] < end,
    decreases end - first,
{
    if end > first {
        lemma_id_rows_of(wb, sheet, pattern, col, first, end - 1);
        let prev = id_rows_of(wb, sheet, pattern, col, first, end - 1);
        let cur = id_rows_of(wb, sheet, pattern, col, first, end);
        if id_at(wb, sheet, pattern, CellRef { row: (end - 1) as u32, col }) is Some {
            assert forall|i: int, j: int| 0 <= i < j < cur.len() implies #[trigger] cur[i] < #[trigger] cur[j] by {
                assert(cur[i] == prev[i]);
                if j < prev.len() {
                    assert(cur[j] == prev[j]);
                }
            }
            assert forall|i: int| 0 <= i < cur.len() implies first <= #[trigger] cur[i] < end by {
                if i < prev.len() {
                    assert(cur[i] == prev[i]);
                }
            }
        }
    }
}

/// The id column has the most student ids among the columns `0..n`, and no column
/// before it has as many.
pub proof fn lemma_best_id_column(
    wb: Seq<SheetView>,
    sheet: Seq<char>,
    pattern: Seq<char>,
    rows: (u32, u32),
    n: int,
)
    requires
        1 <= n <= u32::MAX as int + 1,
    ensures
        ({
            let best = best_id_column(wb, sheet, pattern, rows, n);
            &&& best.0 < n
            &&& best.1 == column_ids(wb, sheet, pattern, rows, best.0).len()
            &&& forall|c: u32| c < n ==> #[trigger] column_ids(wb, sheet, pattern, rows, c).len() <= best.1
            &&& forall|c: u32| c < best.0 ==> #[trigger] column_ids(wb, sheet, pattern, rows, c).len() < best.1
        }),
    decreases n,
{
    if n > 1 {
        lemma_best_id_column(wb, sheet, pattern, rows, n - 1);
    }
}

/// The name column has the most name-like cells among the columns `0..n` other
/// than the id column, and no column before it has as many; no column has any if
/// there is no name column.
pub proof fn lemma_best_name_column(
    wb: Seq<SheetView>,
    sheet: Seq<char>,
    pattern: Seq<char>,
    rows: Seq<u32>,
    id_column: u32,
    n: int,
)
    requires
        0 <= n <= u32::MAX as int + 1,
    ensures
        match best_name_column(wb, sheet, pattern, rows, id_column, n) {
            Some((c, k)) => {
                &&& c < n
                &&& c != id_column
                &&& k == name_count(wb, sheet, pattern, rows, c)
                &&& k > 0
                &&& forall|d: u32| d < n && d != id_column ==> #[trigger] name_count(wb, sheet, pattern, rows, d) <= k
                &&& forall|d: u32| d < c && d != id_column ==> #[trigger] name_count(wb, sheet, pattern, rows, d) < k
            },
            None => forall|d: u32| d < n && d != id_column ==> #[trigger] name_count(wb, sheet, pattern, rows, d) == 0,
        },
    decreases n,
{
    if n > 0 {
        lemma_best_name_column(wb, sheet, pattern, rows, id_column, n - 1);
    }
}

/// The estimated table: the id column and the name column are searched columns,
/// and the table spans from the first row to the last row of the ids, which are
/// all in it.
pub proof fn lemma_estimate(wb: Seq<SheetView>, sheet: Seq<char>, pattern: Seq<char>, max_column: u32)
    ensures
        estimate_of(wb, sheet, pattern, max_column) matches Some(t) ==> {
            let rows = rows_of(wb, sheet)->0;
            let ids = column_ids(wb, sheet, pattern, rows, t.layout.id_column);
            &&& t.layout.id_column <= max_column
            &&& t.layout.start_row <= t.layout.end_row
            &&& t.ids == ids.len() > 0
            &&& t.layout.start_row == ids[0]
            &&& t.layout.end_row == ids.last()
            &&& forall|i: int| 0 <= i < ids.len() ==> t.layout.start_row <= #[trigger] ids[i] <= t.layout.end_row
            &&& (t.layout.name_column matches Some(c) ==> c <= max_column && c != t.layout.id_column)
        },
{
    if let Some(rows) = rows_of(wb, sheet) {
        let n = max_column + 1;
        lemma_best_id_column(wb, sheet, pattern, rows, n);
        let best = best_id_column(wb, sheet, pattern, rows, n);
        if best.1 > 0 {
            let ids = column_ids(wb, sheet, pattern, rows, best.0);
            lemma_id_rows_of(wb, sheet, pattern, best.0, rows.0 as int, rows.1 + 1);
            lemma_best_name_column(wb, sheet, pattern, ids, best.0, n);
            assert forall|i: int| 0 <= i < ids.len() implies ids[0] <= #[trigger] ids[i] <= ids.last() by {
                if i > 0 {
                    assert(ids[0] < ids[i]);
                }
                if i < ids.len() - 1 {
                    assert(ids[i] < ids[ids.len() - 1]);
                }
            }
        }
    }
}

// ---------------------------------------------------------------------------
// The model of the warnings.

/// The column names separated by `, `.
pub open spec fn column_names(cols: Seq<u32>) -> Seq<char>
    decreases cols.len(),
{
    if cols.len() == 0 {
        Seq::empty()
    } else if cols.len() == 1 {
        column_name_of(cols[0] as nat)
    } else {
        column_names(cols.drop_last()) + ", "@ + column_name_of(cols.last() as nat)
    }
}

/// The warning if other columns have as many student ids as the chosen id column.
pub open spec fn ties_warning(sheet: Seq<char>, t: TableEstimateView) -> Option<Seq<char>> {
    if t.tied_columns.len() == 0 {
        None
    } else {
        let chosen = column_name_of(t.layout.id_column as nat);
        Some(
            sheet + ": columns "@ + chosen + ", "@ + column_names(t.tied_columns)
                + " have the same number of student ids; chose "@ + chosen,
        )
    }
}

/// The warnings about the duplicated student ids of a table.
pub open spec fn duplicate_warnings(sheet: Seq<char>, groups: Seq<(Seq<char>, Seq<CellRef>)>) -> Seq<
    Seq<char>,
> {
    groups.map_values(
        |g: (Seq<char>, Seq<CellRef>)|
            sheet + ": duplicated student id "@ + g.0 + " at "@ + cells_text(sheet, g.1),
    )
}

pub open spec fn opt_warning(w: Option<Seq<char>>) -> Seq<Seq<char>> {
    match w {
        Some(w) => seq![w],
        None => Seq::empty(),
    }
}

/// The warnings about an estimated table which users should review: ties of the
/// id column, unresolved student ids outside and inside the table, and
/// duplicated ids.
pub open spec fn estimate_warnings(
    wb: Seq<SheetView>,
    sheet: Seq<char>,
    pattern: Seq<char>,
    t: TableEstimateView,
) -> Seq<Seq<char>> {
    opt_warning(ties_warning(sheet, t)) + unresolved_outside_of(wb, sheet, t.layout)
        + unresolved_inside_of(wb, sheet, t.layout) + duplicate_warnings(
        sheet,
        duplicates_of(table_students(wb, sheet, pattern, t.layout), t.layout.id_column),
    )
}


// ---------------------------------------------------------------------------
// The estimation.

/// Estimates the layout of the sheet. It also returns the warnings about the
/// estimation which users should review.
pub(super) fn analyze(workbook: &Workbook, sheet: &str, pattern: &IdPattern, max_column: u32) -> (r: (
    SheetAnalysis,
    Vec<String>,
))
    ensures
        r.0@ == (SheetAnalysisView {
            name: sheet@,
            table: estimate_of(workbook@, sheet@, pattern@, max_column),
        }),
        strings_view(r.1@) == match estimate_of(workbook@, sheet@, pattern@, max_column) {
            Some(t) => estimate_warnings(workbook@, sheet@, pattern@, t),
            None => Seq::empty(),
        },
{
    let reader = RowReader::new(workbook, sheet, pattern);
    let table = match workbook.rows(sheet) {
        Some(rows) => Scanner::new(reader, rows, max_column).estimate(),
        None => None,
    };
    let warnings = match &table {
        Some(table) => warn_estimate(reader, table),
        None => Vec::new(),
    };
    (SheetAnalysis { name: String::from_str(sheet), table }, warnings)
}

/// The warnings about the estimation which users should review.
fn warn_estimate(reader: RowReader, table: &TableEstimate) -> (r: Vec<String>)
    ensures
        strings_view(r@) == estimate_warnings(
            reader.workbook@,
            reader.sheet@,
            reader.pattern@,
            table@,
        ),
{
    let mut warnings: Vec<String> = Vec::new();
    if let Some(w) = warn_ties(reader.sheet, table) {
        warnings.push(w);
    }
    assert(strings_view(warnings@) =~= opt_warning(ties_warning(reader.sheet@, table@)));
    let ghost a = warnings@;
    let mut outside = unresolved_warnings(&reader, &table.layout, true);
    let ghost b = outside@;
    warnings.append(&mut outside);
    assert(strings_view(warnings@) =~= strings_view(a) + strings_view(b));
    let ghost c = warnings@;
    let mut inside = unresolved_warnings(&reader, &table.layout, false);
    let ghost d = inside@;
    warnings.append(&mut inside);
    assert(strings_view(warnings@) =~= strings_view(c) + strings_view(d));
    let ghost e = warnings@;
    let built = StudentTable::build(reader.sheet, table.layout, reader.workbook, reader.pattern);
    let mut duplicates = warn_duplicates(built);
    let ghost f = duplicates@;
    warnings.append(&mut duplicates);
    assert(strings_view(warnings@) =~= strings_view(e) + strings_view(f));
    warnings
}

/// Scans the candidate columns of a sheet.
struct Scanner<'a> {
    /// The reader of the sheet.
    reader: RowReader<'a>,
    /// The first and the last row which have values or formulas.
    rows: (u32, u32),
    /// The last candidate column.
    max_column: u32,
}

impl<'a> Scanner<'a> {
    /// Creates a scanner of the rows and the columns `0..=max_column`.
    fn new(reader: RowReader<'a>, rows: (u32, u32), max_column: u32) -> (r: Self)
        ensures
            r.reader == reader,
            r.rows == rows,
            r.max_column == max_column,
    {
        Scanner { reader, rows, max_column }
    }

    spec fn wb(&self) -> Seq<SheetView> {
        self.reader.workbook@
    }

    spec fn sheet(&self) -> Seq<char> {
        self.reader.sheet@
    }

    spec fn pattern(&self) -> Seq<char> {
        self.reader.pattern@
    }

    /// Estimates the student table, or returns `None` if no student ids are found.
    fn estimate(&self) -> (r: Option<TableEstimate>)
        requires
            rows_of(self.wb(), self.sheet()) == Some(self.rows),
        ensures
            match r {
                Some(t) => estimate_of(self.wb(), self.sheet(), self.pattern(), self.max_column) == Some(t@),
                None => estimate_of(self.wb(), self.sheet(), self.pattern(), self.max_column) is None,
            },
    {
        let (id_column, id_rows, tied_columns) = match self.id_column() {
            Some(found) => found,
            None => {
                return None;
            },
        };
        let name = self.name_column(id_column, &id_rows);
        let layout = TableLayout {
            id_column,
            name_column: match name {
                Some((col, _)) => Some(col),
                None => None,
            },
            start_row: id_rows[0],
            end_row: id_rows[id_rows.len() - 1],
        };
        let names = match name {
            Some((_, count)) => count,
            None => 0,
        };
        Some(TableEstimate { layout, ids: id_rows.len(), names, tied_columns })
    }

    /// Chooses the column with the most student ids (the smallest index on ties).
    /// Returns the column, the rows of the ids, and the other tied columns.
    fn id_column(&self) -> (r: Option<(u32, Vec<u32>, Vec<u32>)>)
        ensures
            ({
                let best = best_id_column(
                    self.wb(),
                    self.sheet(),
                    self.pattern(),
                    self.rows,
                    self.max_column + 1,
                );
                match r {
                    Some((col, rows, tied)) => {
                        &&& best.1 > 0
                        &&& col == best.0
                        &&& rows@.len() == best.1
                        &&& rows@ == column_ids(self.wb(), self.sheet(), self.pattern(), self.rows, col)
                        &&& tied@ == tied_columns_of(
                            self.wb(),
                            self.sheet(),
                            self.pattern(),
                            self.rows,
                            self.max_column + 1,
                            best,
                        )
                    },
                    None => best.1 == 0,
                }
            }),
    {
        let ghost (wb, sheet, pattern, rows) = (self.wb(), self.sheet(), self.pattern(), self.rows);
        let mut counts: Vec<usize> = Vec::new();
        let mut best_col: u32 = 0;
        let mut best_rows: Vec<u32> = self.id_rows(0);
        counts.push(best_rows.len());
        let mut col: u64 = 1;
        while col <= self.max_column as u64
            invariant
                1 <= col <= self.max_column as u64 + 1,
                wb == self.wb(),
                sheet == self.sheet(),
                pattern == self.pattern(),
                rows == self.rows,
                counts.len() == col,
                forall|c: int| 0 <= c < col ==> #[trigger] counts@[c] == column_ids(wb, sheet, pattern, rows, c as u32).len(),
                best_id_column(wb, sheet, pattern, rows, col as int) == (best_col, best_rows@.len()),
                best_rows@ == column_ids(wb, sheet, pattern, rows, best_col),
            decreases self.max_column as u64 + 1 - col,
        {
            let found = self.id_rows(col as u32);
            counts.push(found.len());
            if found.len() > best_rows.len() {
                best_col = col as u32;
                best_rows = found;
            }
            col += 1;
        }
        if best_rows.len() == 0 {
            return None;
        }
        let ghost best = (best_col, best_rows@.len());
        let mut tied: Vec<u32> = Vec::new();
        let mut c: usize = 0;
        while c < counts.len()
            invariant
                c <= counts.len(),
                counts.len() == self.max_column as u64 + 1,
                forall|k: int|
                    0 <= k < counts.len() ==> #[trigger] counts@[k] == column_ids(wb, sheet, pattern, rows, k as u32).len(),
                best == (best_col, best_rows@.len()),
                tied@ == tied_columns_of(wb, sheet, pattern, rows, c as int, best),
            decreases counts.len() - c,
        {
            if c as u32 != best_col && counts[c] == best_rows.len() {
                tied.push(c as u32);
            }
            c += 1;
        }
        Some((best_col, best_rows, tied))
    }

    /// Returns the rows which have student ids in the column.
    fn id_rows(&self, col: u32) -> (r: Vec<u32>)
        ensures
            r@ == column_ids(self.wb(), self.sheet(), self.pattern(), self.rows, col),
            forall|i: int| 0 <= i < r@.len() ==> self.rows.0 <= #[trigger] r@[i] <= self.rows.1,
    {
        let (first, last) = self.rows;
        let mut r: Vec<u32> = Vec::new();
        let mut row: u64 = first as u64;
        while row <= last as u64
            invariant
                first <= row,
                row <= last as u64 + 1 || row == first,
                (first, last) == self.rows,
                r@ == id_rows_of(self.wb(), self.sheet(), self.pattern(), col, first as int, row as int),
                forall|i: int| 0 <= i < r@.len() ==> first <= #[trigger] r@[i] < row,
            decreases last as u64 + 1 - row,
        {
            if self.reader.quiet_id(CellRef::new(row as u32, col)).is_some() {
                r.push(row as u32);
            }
            row += 1;
        }
        if row != last as u64 + 1 {
            assert(id_rows_of(self.wb(), self.sheet(), self.pattern(), col, first as int, last + 1)
                =~= Seq::<u32>::empty());
        }
        r
    }

    /// Chooses the column with the most name-like cells in the student rows.
    fn name_column(&self, id_column: u32, id_rows: &Vec<u32>) -> (r: Option<(u32, usize)>)
        ensures
            match r {
                Some((c, k)) => best_name_column(
                    self.wb(),
                    self.sheet(),
                    self.pattern(),
                    id_rows@,
                    id_column,
                    self.max_column + 1,
                ) == Some((c, k as nat)),
                None => best_name_column(
                    self.wb(),
                    self.sheet(),
                    self.pattern(),
                    id_rows@,
                    id_column,
                    self.max_column + 1,
                ) is None,
            },
    {
        let mut best: Option<(u32, usize)> = None;
        let mut col: u64 = 0;
        while col <= self.max_column as u64
            invariant
                col <= self.max_column as u64 + 1,
                match best {
                    Some((c, k)) => best_name_column(
                        self.wb(),
                        self.sheet(),
                        self.pattern(),
                        id_rows@,
                        id_column,
                        col as int,
                    ) == Some((c, k as nat)),
                    None => best_name_column(
                        self.wb(),
                        self.sheet(),
                        self.pattern(),
                        id_rows@,
                        id_column,
                        col as int,
                    ) is None,
                },
            decreases self.max_column as u64 + 1 - col,
        {
            if col as u32 != id_column {
                let k = self.count_names(id_rows, col as u32);
                if k > 0 {
                    best = match best {
                        None => Some((col as u32, k)),
                        Some((pc, pk)) => if k > pk {
                            Some((col as u32, k))
                        } else {
                            Some((pc, pk))
                        },
                    };
                }
            }
            col += 1;
        }
        best
    }

    /// The number of name-like cells in the column in the rows.
    fn count_names(&self, rows: &Vec<u32>, col: u32) -> (r: usize)
        ensures
            r == name_count(self.wb(), self.sheet(), self.pattern(), rows@, col),
    {
        let mut count: usize = 0;
        let mut i: usize = 0;
        while i < rows.len()
            invariant
                i <= rows.len(),
                count == name_count(self.wb(), self.sheet(), self.pattern(), rows@.take(i as int), col),
                count <= i,
            decreases rows.len() - i,
        {
            assert(rows@.take(i + 1).drop_last() =~= rows@.take(i as int));
            if self.reader.is_name_like(CellRef::new(rows[i], col)) {
                count += 1;
            }
            i += 1;
        }
        assert(rows@.take(rows.len() as int) =~= rows@);
        count
    }
}

/// The column names separated by `, `.
pub(super) fn column_names_chars(cols: &Vec<u32>) -> (r: Vec<char>)
    ensures
        r@ == column_names(cols@),
{
    let mut t: Vec<char> = Vec::new();
    let mut i: usize = 0;
    while i < cols.len()
        invariant
            i <= cols.len(),
            t@ == column_names(cols@.take(i as int)),
        decreases cols.len() - i,
    {
        assert(cols@.take(i + 1).drop_last() =~= cols@.take(i as int));
        if i > 0 {
            append(&mut t, &chars_of(", "));
        } else {
            assert(t@ =~= Seq::<char>::empty());
        }
        append(&mut t, &column_chars(cols[i]));
        i += 1;
        assert(t@ =~= column_names(cols@.take(i as int)));
    }
    assert(cols@.take(cols.len() as int) =~= cols@);
    t
}

/// The warning if other columns have as many student ids as the chosen id column.
fn warn_ties(sheet: &str, table: &TableEstimate) -> (r: Option<String>)
    ensures
        crate::formula::opt_view(r) == ties_warning(sheet@, table@),
{
    if table.tied_columns.len() == 0 {
        return None;
    }
    let chosen = column_chars(table.layout.id_column);
    let mut t = chars_of(sheet);
    append(&mut t, &chars_of(": columns "));
    append(&mut t, &chosen);
    append(&mut t, &chars_of(", "));
    append(&mut t, &column_names_chars(&table.tied_columns));
    append(&mut t, &chars_of(" have the same number of student ids; chose "));
    append(&mut t, &chosen);
    Some(string_of(&t))
}

/// The warnings about the duplicated student ids in the table.
fn warn_duplicates(table: StudentTable) -> (r: Vec<String>)
    ensures
        strings_view(r@) == duplicate_warnings(
            table.sheet@,
            duplicates_of(table@, table.layout.id_column),
        ),
{
    let groups = table.duplicates();
    let ghost gv = groups_view(groups@);
    let mut r: Vec<String> = Vec::new();
    let mut i: usize = 0;
    while i < groups.len()
        invariant
            i <= groups.len(),
            gv == groups_view(groups@),
            gv == duplicates_of(table@, table.layout.id_column),
            strings_view(r@) == duplicate_warnings(table.sheet@, gv.take(i as int)),
        decreases groups.len() - i,
    {
        assert(gv[i as int] == (groups@[i as int].0@, groups@[i as int].1@));
        let mut t = chars_of(table.sheet.as_str());
        append(&mut t, &chars_of(": duplicated student id "));
        append(&mut t, &chars_of(groups[i].0.0.as_str()));
        append(&mut t, &chars_of(" at "));
        append(&mut t, &crate::problem::cells_chars(table.sheet.as_str(), &groups[i].1));
        let ghost before = r@;
        let w = string_of(&t);
        assert(w@ == table.sheet@ + ": duplicated student id "@ + gv[i as int].0 + " at "@ + cells_text(
            table.sheet@,
            gv[i as int].1,
        ));
        r.push(w);
        assert(gv.take(i + 1) =~= gv.take(i as int).push(gv[i as int]));
        assert(duplicate_warnings(table.sheet@, gv.take(i + 1)) =~= duplicate_warnings(
            table.sheet@,
            gv.take(i as int),
        ).push(duplicate_warnings(table.sheet@, gv.take(i + 1))[i as int]));
        assert(strings_view(r@) =~= strings_view(before).push(w@));
        assert(strings_view(r@) =~= duplicate_warnings(table.sheet@, gv.take(i + 1)));
        i += 1;
    }
    assert(gv.take(groups.len() as int) =~= gv);
    r
}

} // verus!
