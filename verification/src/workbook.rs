//! The values and formulas of the worksheets, and the resolution of values.
//!
//! The values are the results cached by Excel. If a cell has a formula without
//! the cache, [`Workbook::resolve`] follows single cell references to find the value.
use vstd::prelude::*;
use crate::cell::CellRef;
use crate::formula::{opt_view, simple_reference, simple_reference_of};
use crate::student::CellValue;
use crate::text::str_eq;

verus! {

/// The maximum number of references followed to resolve a value without cache.
pub const MAX_REFERENCE_DEPTH: usize = 10;

/// The values and formulas of a worksheet, as read from the file.
#[derive(Debug)]
pub struct Sheet {
    /// The sheet name.
    pub name: String,
    /// The cached values of the cells, by position.
    pub values: Vec<(CellRef, CellValue)>,
    /// The formulas of the cells without the leading `=`, in the order of the rows.
    pub formulas: Vec<(CellRef, String)>,
    /// The first and the last row of the range of values, if any.
    pub value_rows: Option<(u32, u32)>,
    /// The first and the last row of the range of formulas, if any.
    pub formula_rows: Option<(u32, u32)>,
}

/// The model of a worksheet.
pub struct SheetView {
    pub name: Seq<char>,
    pub values: Seq<(CellRef, CellValue)>,
    pub formulas: Seq<(CellRef, Seq<char>)>,
    pub value_rows: Option<(u32, u32)>,
    pub formula_rows: Option<(u32, u32)>,
}

impl View for Sheet {
    type V = SheetView;

    open spec fn view(&self) -> SheetView {
        SheetView {
            name: self.name@,
            values: self.values@,
            formulas: self.formulas@.map_values(|f: (CellRef, String)| (f.0, f.1@)),
            value_rows: self.value_rows,
            formula_rows: self.formula_rows,
        }
    }
}

/// The values and formulas of the worksheets in an Excel file.
#[derive(Debug)]
pub struct Workbook {
    /// The sheets in the workbook order.
    sheets: Vec<Sheet>,
}

impl View for Workbook {
    type V = Seq<SheetView>;

    closed spec fn view(&self) -> Seq<SheetView> {
        self.sheets@.map_values(|s: Sheet| s@)
    }
}

/// The resolved value of a cell.
#[derive(Debug, PartialEq)]
pub enum Resolved {
    /// The value (cached, or found by following references).
    Value(CellValue),
    /// The cell is empty.
    Empty,
    /// The cell has a formula without cache, and it cannot be followed.
    Unresolved(Unresolved),
}

/// The reason why a value cannot be resolved.
#[derive(Debug, Clone, Copy, PartialEq, Eq, Structural)]
pub enum Unresolved {
    /// The formula is not a single cell reference (e.g., `=TEXT(名簿!A5,"0")`).
    NotSimple,
    /// The references are nested too deeply, or circular.
    TooDeep,
}

// ---------------------------------------------------------------------------
// The model of a workbook.

/// The index of the sheet of the name (the last one of the name), or -1.
pub open spec fn find_sheet(sheets: Seq<SheetView>, name: Seq<char>) -> int
    decreases sheets.len(),
{
    if sheets.len() == 0 {
        -1
    } else if sheets.last().name == name {
        sheets.len() - 1
    } else {
        find_sheet(sheets.drop_last(), name)
    }
}

/// The value stored for the cell (the first one for the position).
pub open spec fn first_value(values: Seq<(CellRef, CellValue)>, cell: CellRef) -> Option<CellValue>
    decreases values.len(),
{
    if values.len() == 0 {
        None
    } else if values[0].0 == cell {
        Some(values[0].1)
    } else {
        first_value(values.drop_first(), cell)
    }
}

/// The formula stored for the cell (the first one for the position).
pub open spec fn first_formula(formulas: Seq<(CellRef, Seq<char>)>, cell: CellRef) -> Option<
    Seq<char>,
>
    decreases formulas.len(),
{
    if formulas.len() == 0 {
        None
    } else if formulas[0].0 == cell {
        Some(formulas[0].1)
    } else {
        first_formula(formulas.drop_first(), cell)
    }
}

/// The sheet has the name.
pub open spec fn has_sheet(wb: Seq<SheetView>, sheet: Seq<char>) -> bool {
    find_sheet(wb, sheet) >= 0
}

/// The (cached) value of the cell, if it is not empty.
pub open spec fn value_at(wb: Seq<SheetView>, sheet: Seq<char>, cell: CellRef) -> Option<CellValue> {
    let i = find_sheet(wb, sheet);
    if i < 0 {
        None
    } else {
        match first_value(wb[i].values, cell) {
            Some(v) => if v == CellValue::Empty { None } else { Some(v) },
            None => None,
        }
    }
}

/// The formula of the cell, if it is not empty.
pub open spec fn formula_at(wb: Seq<SheetView>, sheet: Seq<char>, cell: CellRef) -> Option<Seq<char>> {
    let i = find_sheet(wb, sheet);
    if i < 0 {
        None
    } else {
        match first_formula(wb[i].formulas, cell) {
            Some(f) => if f.len() == 0 { None } else { Some(f) },
            None => None,
        }
    }
}

/// The formulas which are not empty, in order.
pub open spec fn nonempty_formulas(fs: Seq<(CellRef, Seq<char>)>) -> Seq<(CellRef, Seq<char>)>
    decreases fs.len(),
{
    if fs.len() == 0 {
        fs
    } else if fs.last().1.len() > 0 {
        nonempty_formulas(fs.drop_last()).push(fs.last())
    } else {
        nonempty_formulas(fs.drop_last())
    }
}

/// The non-empty formulas of the sheet, in order.
pub open spec fn formulas_of(wb: Seq<SheetView>, sheet: Seq<char>) -> Seq<(CellRef, Seq<char>)> {
    let i = find_sheet(wb, sheet);
    if i < 0 {
        Seq::empty()
    } else {
        nonempty_formulas(wb[i].formulas)
    }
}

pub open spec fn min_opt(a: Option<u32>, b: Option<u32>) -> Option<u32> {
    match (a, b) {
        (Some(x), Some(y)) => Some(if x <= y { x } else { y }),
        (Some(x), None) => Some(x),
        (None, y) => y,
    }
}

pub open spec fn max_opt(a: Option<u32>, b: Option<u32>) -> Option<u32> {
    match (a, b) {
        (Some(x), Some(y)) => Some(if x >= y { x } else { y }),
        (Some(x), None) => Some(x),
        (None, y) => y,
    }
}

/// The rows which have values or formulas: from the first row to the last row of
/// both ranges, or `None` for an empty or unknown sheet.
pub open spec fn rows_of(wb: Seq<SheetView>, sheet: Seq<char>) -> Option<(u32, u32)> {
    let i = find_sheet(wb, sheet);
    if i < 0 {
        None
    } else {
        let (v, f) = (wb[i].value_rows, wb[i].formula_rows);
        let first = min_opt(
            match v { Some(r) => Some(r.0), None => None },
            match f { Some(r) => Some(r.0), None => None },
        );
        let first = min_opt(first, match v { Some(r) => Some(r.1), None => None });
        let first = min_opt(first, match f { Some(r) => Some(r.1), None => None });
        let last = max_opt(
            match v { Some(r) => Some(r.0), None => None },
            match f { Some(r) => Some(r.0), None => None },
        );
        let last = max_opt(last, match v { Some(r) => Some(r.1), None => None });
        let last = max_opt(last, match f { Some(r) => Some(r.1), None => None });
        match (first, last) {
            (Some(a), Some(b)) => if a <= b { Some((a, b)) } else { None },
            _ => None,
        }
    }
}

/// Resolves the value of the cell, following single cell references at most
/// `steps - 1` times.
pub open spec fn resolve_of(wb: Seq<SheetView>, sheet: Seq<char>, cell: CellRef, steps: nat) -> Resolved
    decreases steps,
{
    if steps == 0 {
        Resolved::Unresolved(Unresolved::TooDeep)
    } else {
        match value_at(wb, sheet, cell) {
            Some(v) => Resolved::Value(v),
            None => match formula_at(wb, sheet, cell) {
                None => Resolved::Empty,
                Some(text) => match simple_reference_of(text) {
                    None => Resolved::Unresolved(Unresolved::NotSimple),
                    Some((next_sheet, next_cell)) => resolve_of(
                        wb,
                        match next_sheet {
                            Some(s) => s,
                            None => sheet,
                        },
                        next_cell,
                        (steps - 1) as nat,
                    ),
                },
            },
        }
    }
}

/// The value of the cell, following references up to [`MAX_REFERENCE_DEPTH`] times.
pub open spec fn resolved(wb: Seq<SheetView>, sheet: Seq<char>, cell: CellRef) -> Resolved {
    resolve_of(wb, sheet, cell, (MAX_REFERENCE_DEPTH + 1) as nat)
}

/// Every formula of the workbook can be parsed.

/// The sheets of the workbook are in it.
pub proof fn lemma_has_sheet(wb: Seq<SheetView>, i: int)
    requires
        0 <= i < wb.len(),
    ensures
        has_sheet(wb, wb[i].name),
    decreases wb.len(),
{
    if wb.last().name != wb[i].name {
        lemma_has_sheet(wb.drop_last(), i);
    }
}

proof fn lemma_find_sheet(wb: Seq<SheetView>, name: Seq<char>)
    ensures
        -1 <= find_sheet(wb, name) < wb.len(),
        find_sheet(wb, name) >= 0 ==> wb[find_sheet(wb, name)].name == name,
    decreases wb.len(),
{
    if wb.len() > 0 && wb.last().name != name {
        lemma_find_sheet(wb.drop_last(), name);
    }
}



impl Sheet {
    /// Creates a sheet of the values and the formulas.
    pub fn new(
        name: String,
        values: Vec<(CellRef, CellValue)>,
        formulas: Vec<(CellRef, String)>,
        value_rows: Option<(u32, u32)>,
        formula_rows: Option<(u32, u32)>,
    ) -> (r: Self)
        ensures
            r.name == name,
            r.values == values,
            r.formulas == formulas,
            r.value_rows == value_rows,
            r.formula_rows == formula_rows,
    {
        Sheet { name, values, formulas, value_rows, formula_rows }
    }
}

impl Workbook {
    /// Creates a workbook of the sheets, in the workbook order.
    pub fn new(sheets: Vec<Sheet>) -> (r: Self)
        ensures
            r@ == sheets@.map_values(|s: Sheet| s@),
    {
        Workbook { sheets }
    }

    fn find(&self, sheet: &str) -> (r: Option<usize>)
        ensures
            match r {
                Some(i) => i as int == find_sheet(self@, sheet@) && i < self.sheets.len(),
                None => find_sheet(self@, sheet@) < 0,
            },
    {
        proof {
            lemma_find_sheet(self@, sheet@);
        }
        let mut i = self.sheets.len();
        assert(self@.take(i as int) =~= self@);
        while i > 0
            invariant
                i <= self.sheets.len(),
                find_sheet(self@, sheet@) == find_sheet(self@.take(i as int), sheet@),
            decreases i,
        {
            assert(self@.take(i as int).last() == self@[i - 1]);
            assert(self@[i - 1] == self.sheets@[i - 1]@);
            assert(self@.take(i as int).drop_last() =~= self@.take(i - 1));
            if str_eq(self.sheets[i - 1].name.as_str(), sheet) {
                return Some(i - 1);
            }
            i -= 1;
        }
        None
    }

    /// Returns the sheet names in the workbook order.
    pub fn sheet_names(&self) -> (r: Vec<String>)
        ensures
            r@.len() == self@.len(),
            forall|i: int| 0 <= i < r@.len() ==> (#[trigger] r@[i])@ == self@[i].name,
    {
        let mut r: Vec<String> = Vec::new();
        let mut i: usize = 0;
        while i < self.sheets.len()
            invariant
                i <= self.sheets.len(),
                r@.len() == i,
                forall|k: int| 0 <= k < i ==> (#[trigger] r@[k])@ == self@[k].name,
            decreases self.sheets.len() - i,
        {
            r.push(self.sheets[i].name.clone());
            i += 1;
        }
        r
    }

    /// Returns true if the workbook has the sheet.
    pub fn contains(&self, sheet: &str) -> (r: bool)
        ensures
            r == has_sheet(self@, sheet@),
    {
        self.find(sheet).is_some()
    }

    /// Returns the (cached) value of the cell, if it is not empty.
    pub fn value(&self, sheet: &str, cell: CellRef) -> (r: Option<CellValue>)
        ensures
            r == value_at(self@, sheet@, cell),
    {
        let i = self.find(sheet)?;
        let values = &self.sheets[i].values;
        assert(self@[i as int] == self.sheets@[i as int]@);
        assert(values@.skip(0) =~= values@);
        let mut k: usize = 0;
        while k < values.len()
            invariant
                k <= values.len(),
                i as int == find_sheet(self@, sheet@),
                i < self@.len(),
                values@ == self@[i as int].values,
                first_value(values@, cell) == first_value(values@.skip(k as int), cell),
            decreases values.len() - k,
        {
            assert(values@.skip(k as int).drop_first() =~= values@.skip(k + 1));
            if values[k].0 == cell {
                if let CellValue::Empty = values[k].1 {
                    return None;
                }
                return Some(values[k].1.clone());
            }
            k += 1;
        }
        None
    }

    /// Returns the formula of the cell (without the leading `=`), if it exists.
    pub fn formula(&self, sheet: &str, cell: CellRef) -> (r: Option<String>)
        ensures
            opt_view(r) == formula_at(self@, sheet@, cell),
    {
        let i = self.find(sheet)?;
        let formulas = &self.sheets[i].formulas;
        let ghost fs = self@[i as int].formulas;
        assert(self@[i as int] == self.sheets@[i as int]@);
        assert(fs.skip(0) =~= fs);
        let mut k: usize = 0;
        while k < formulas.len()
            invariant
                k <= formulas.len(),
                i as int == find_sheet(self@, sheet@),
                i < self@.len(),
                fs == self@[i as int].formulas,
                fs == formulas@.map_values(|f: (CellRef, String)| (f.0, f.1@)),
                first_formula(fs, cell) == first_formula(fs.skip(k as int), cell),
            decreases formulas.len() - k,
        {
            assert(fs.skip(k as int).drop_first() =~= fs.skip(k + 1));
            assert(fs[k as int] == (formulas[k as int].0, formulas[k as int].1@));
            if formulas[k].0 == cell {
                if formulas[k].1.as_str().is_empty() {
                    return None;
                }
                return Some(formulas[k].1.clone());
            }
            k += 1;
        }
        None
    }
}

impl Workbook {
    /// Returns all formulas in the sheet with their positions.
    pub fn formulas(&self, sheet: &str) -> (r: Vec<(CellRef, String)>)
        ensures
            r@.map_values(|f: (CellRef, String)| (f.0, f.1@)) == formulas_of(self@, sheet@),
    {
        let mut r: Vec<(CellRef, String)> = Vec::new();
        let i = match self.find(sheet) {
            Some(i) => i,
            None => {
                assert(r@.map_values(|f: (CellRef, String)| (f.0, f.1@)) =~= Seq::<(CellRef, Seq<char>)>::empty());
                return r;
            },
        };
        let formulas = &self.sheets[i].formulas;
        let ghost fs = self@[i as int].formulas;
        assert(self@[i as int] == self.sheets@[i as int]@);
        let mut k: usize = 0;
        while k < formulas.len()
            invariant
                k <= formulas.len(),
                fs == formulas@.map_values(|f: (CellRef, String)| (f.0, f.1@)),
                r@.map_values(|f: (CellRef, String)| (f.0, f.1@)) == nonempty_formulas(fs.take(k as int)),
            decreases formulas.len() - k,
        {
            let ghost before = r@;
            assert(fs.take(k + 1).drop_last() =~= fs.take(k as int));
            assert(fs.take(k + 1).last() == (formulas[k as int].0, formulas[k as int].1@));
            if !formulas[k].1.as_str().is_empty() {
                r.push((formulas[k].0, formulas[k].1.clone()));
                assert(r@.map_values(|f: (CellRef, String)| (f.0, f.1@)) =~= before.map_values(|f: (CellRef, String)| (f.0, f.1@)).push(fs[k as int]));
            }
            k += 1;
        }
        assert(fs.take(formulas.len() as int) =~= fs);
        r
    }

    /// Returns the rows which have values or formulas (the first and the last), or
    /// `None` for an empty or unknown sheet.
    pub fn rows(&self, sheet: &str) -> (r: Option<(u32, u32)>)
        ensures
            r == rows_of(self@, sheet@),
    {
        let i = self.find(sheet)?;
        assert(self@[i as int] == self.sheets@[i as int]@);
        let s = &self.sheets[i];
        let mut first: Option<u32> = None;
        let mut last: Option<u32> = None;
        let bounds = [
            match s.value_rows { Some(r) => Some(r.0), None => None },
            match s.formula_rows { Some(r) => Some(r.0), None => None },
            match s.value_rows { Some(r) => Some(r.1), None => None },
            match s.formula_rows { Some(r) => Some(r.1), None => None },
        ];
        first = min_of(first, bounds[0]);
        first = min_of(first, bounds[1]);
        first = min_of(first, bounds[2]);
        first = min_of(first, bounds[3]);
        last = max_of(last, bounds[0]);
        last = max_of(last, bounds[1]);
        last = max_of(last, bounds[2]);
        last = max_of(last, bounds[3]);
        match (first, last) {
            (Some(a), Some(b)) => if a <= b { Some((a, b)) } else { None },
            _ => None,
        }
    }

    /// Resolves the value of the cell. If the cell has a formula without cache,
    /// it follows single cell references up to [`MAX_REFERENCE_DEPTH`] times.
    pub fn resolve(&self, sheet: &str, cell: CellRef) -> (r: Resolved)
        ensures
            r == resolved(self@, sheet@, cell),
    {
        let ghost target = resolved(self@, sheet@, cell);
        let mut name = String::from_str(sheet);
        let mut at = cell;
        let mut steps: usize = MAX_REFERENCE_DEPTH + 1;
        loop
            invariant
                resolve_of(self@, name@, at, steps as nat) == target,
                target == resolved(self@, sheet@, cell),
            decreases steps,
        {
            if steps == 0 {
                return Resolved::Unresolved(Unresolved::TooDeep);
            }
            if let Some(value) = self.value(name.as_str(), at) {
                return Resolved::Value(value);
            }
            let text = match self.formula(name.as_str(), at) {
                Some(text) => text,
                None => {
                    return Resolved::Empty;
                },
            };
            match simple_reference(text.as_str()) {
                None => {
                    return Resolved::Unresolved(Unresolved::NotSimple);
                },
                Some((next_sheet, next_cell)) => {
                    if let Some(s) = next_sheet {
                        name = s;
                    }
                    at = next_cell;
                    steps -= 1;
                },
            }
        }
    }
}

fn min_of(a: Option<u32>, b: Option<u32>) -> (r: Option<u32>)
    ensures
        r == min_opt(a, b),
{
    match (a, b) {
        (Some(x), Some(y)) => Some(if x <= y { x } else { y }),
        (Some(x), None) => Some(x),
        (None, y) => y,
    }
}

fn max_of(a: Option<u32>, b: Option<u32>) -> (r: Option<u32>)
    ensures
        r == max_opt(a, b),
{
    match (a, b) {
        (Some(x), Some(y)) => Some(if x >= y { x } else { y }),
        (Some(x), None) => Some(x),
        (None, y) => y,
    }
}

} // verus!
