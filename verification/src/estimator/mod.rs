//! Estimates the layouts of the student tables, and writes the config.
//!
//! For each sheet, the column with the most student ids in the columns
//! `0..=max_column` is the id column, and the column with the most names is the name
//! column. The student table spans from the first row to the last row of the ids.
//! The estimation is written to the config file with the evidences as comments,
//! so that users can review and fix it.
use vstd::prelude::*;
use crate::checker::{lemma_no_missing_sheets, lemma_no_unknown_sheets, sheet_problems_of};
use crate::config::{Config, RawSheetConfig, SheetConfig, TableLayout, sheet_config_of};
use crate::problem::ProblemView;
use crate::student::{DEFAULT_ID_PATTERN, IdPattern};
use crate::text::{keys_sorted, lemma_sorted_insert, lookup, sorted_insert, strings_view};
use crate::workbook::{SheetView, Workbook, has_sheet, lemma_has_sheet};

mod columns;
mod render;

pub use columns::{estimate_of, estimate_warnings};
pub use render::{analysis_text, json_string};

verus! {

/// The default last column index to search student ids and names (A to C).
pub const DEFAULT_MAX_COLUMN: u32 = 2;

/// The options of estimating.
#[derive(Debug, PartialEq, Eq)]
pub struct InitOptions {
    /// The pattern of student ids (see [`IdPattern`]).
    pub id_pattern: String,
    /// Columns `0..=max_column` are searched for student ids and names.
    pub max_column: u32,
}

/// `^[0-9]{7}$` and columns A to C.
impl Default for InitOptions {
    fn default() -> (r: Self)
        ensures
            r.id_pattern@ == DEFAULT_ID_PATTERN@,
            r.max_column == DEFAULT_MAX_COLUMN,
    {
        InitOptions { id_pattern: String::from_str(DEFAULT_ID_PATTERN), max_column: DEFAULT_MAX_COLUMN }
    }
}

impl Clone for InitOptions {
    fn clone(&self) -> (r: Self)
        ensures
            r.id_pattern@ == self.id_pattern@,
            r.max_column == self.max_column,
    {
        InitOptions { id_pattern: self.id_pattern.clone(), max_column: self.max_column }
    }
}

/// The estimated layouts of the sheets in an Excel file.
#[derive(Debug, PartialEq, Eq)]
pub struct Analysis {
    /// The analyzed Excel file.
    pub file: String,
    /// The pattern of student ids used for the estimation.
    pub id_pattern: String,
    /// The sheets in the workbook order.
    pub sheets: Vec<SheetAnalysis>,
}

/// The estimated layout of a sheet.
#[derive(Debug, PartialEq, Eq)]
pub struct SheetAnalysis {
    /// The sheet name.
    pub name: String,
    /// `None` if the sheet is not a student sheet.
    pub table: Option<TableEstimate>,
}

/// The estimated student table with the evidences, which are written as comments.
#[derive(Debug, PartialEq, Eq)]
pub struct TableEstimate {
    /// The estimated layout.
    pub layout: TableLayout,
    /// The number of cells matching the student id pattern in the id column.
    pub ids: usize,
    /// The number of name-like cells in the name column.
    pub names: usize,
    /// Other columns which have as many student ids as the id column.
    pub tied_columns: Vec<u32>,
}

/// The model of an estimated student table.
pub struct TableEstimateView {
    pub layout: TableLayout,
    pub ids: nat,
    pub names: nat,
    pub tied_columns: Seq<u32>,
}

impl View for TableEstimate {
    type V = TableEstimateView;

    open spec fn view(&self) -> TableEstimateView {
        TableEstimateView {
            layout: self.layout,
            ids: self.ids as nat,
            names: self.names as nat,
            tied_columns: self.tied_columns@,
        }
    }
}

/// The model of the estimated layout of a sheet.
pub struct SheetAnalysisView {
    pub name: Seq<char>,
    pub table: Option<TableEstimateView>,
}

impl View for SheetAnalysis {
    type V = SheetAnalysisView;

    open spec fn view(&self) -> SheetAnalysisView {
        SheetAnalysisView {
            name: self.name@,
            table: match self.table {
                Some(t) => Some(t@),
                None => None,
            },
        }
    }
}

pub open spec fn sheets_view(s: Seq<SheetAnalysis>) -> Seq<SheetAnalysisView> {
    s.map_values(|a: SheetAnalysis| a@)
}

/// The estimated layouts of the sheets of the workbook, in the workbook order.
pub open spec fn analyses_of(wb: Seq<SheetView>, pattern: Seq<char>, max_column: u32) -> Seq<
    SheetAnalysisView,
> {
    wb.map_values(
        |s: SheetView|
            SheetAnalysisView { name: s.name, table: estimate_of(wb, s.name, pattern, max_column) },
    )
}

/// The warnings about the estimations of the sheets in `0..n`, in the workbook order.
pub open spec fn analysis_warnings(wb: Seq<SheetView>, pattern: Seq<char>, max_column: u32, n: int) -> Seq<
    Seq<char>,
>
    decreases n,
{
    if n <= 0 {
        Seq::empty()
    } else {
        analysis_warnings(wb, pattern, max_column, n - 1) + match estimate_of(
            wb,
            wb[n - 1].name,
            pattern,
            max_column,
        ) {
            Some(t) => estimate_warnings(wb, wb[n - 1].name, pattern, t),
            None => Seq::empty(),
        }
    }
}

/// The config of a sheet of the estimation: its table, or `skip`.
pub open spec fn analysis_sheet_config(a: SheetAnalysisView) -> SheetConfig {
    match a.table {
        Some(t) => SheetConfig::Student(t.layout),
        None => SheetConfig::Skip,
    }
}

/// The sheet configs of the estimation, by the sheet names.
pub open spec fn config_sheets_of(s: Seq<SheetAnalysisView>) -> Seq<(Seq<char>, SheetConfig)>
    decreases s.len(),
{
    if s.len() == 0 {
        Seq::empty()
    } else {
        sorted_insert(config_sheets_of(s.drop_last()), s.last().name, analysis_sheet_config(s.last()))
    }
}

/// The config of the estimation has the sheet names of the estimation, in order,
/// and nothing else.
pub proof fn lemma_config_sheets(s: Seq<SheetAnalysisView>)
    ensures
        keys_sorted(config_sheets_of(s)),
        forall|i: int| 0 <= i < s.len() ==> #[trigger] lookup(config_sheets_of(s), s[i].name) is Some,
        forall|j: int|
            0 <= j < config_sheets_of(s).len() ==> exists|i: int|
                0 <= i < s.len() && s[i].name == #[trigger] config_sheets_of(s)[j].0,
    decreases s.len(),
{
    if s.len() > 0 {
        let prev = config_sheets_of(s.drop_last());
        lemma_config_sheets(s.drop_last());
        lemma_sorted_insert(prev, s.last().name, analysis_sheet_config(s.last()));
        let cur = config_sheets_of(s);
        assert forall|i: int| 0 <= i < s.len() implies #[trigger] lookup(cur, s[i].name) is Some by {
            if i < s.len() - 1 && s[i].name != s.last().name {
                assert(s[i] == s.drop_last()[i]);
                assert(lookup(prev, s.drop_last()[i].name) is Some);
            }
        }
        assert forall|j: int| 0 <= j < cur.len() implies exists|i: int|
            0 <= i < s.len() && s[i].name == #[trigger] cur[j].0 by {
            if cur[j].0 != s.last().name {
                let k = choose|k: int| 0 <= k < prev.len() && prev[k].0 == cur[j].0;
                let i = choose|i: int| 0 <= i < s.drop_last().len() && s.drop_last()[i].name == #[trigger] prev[k].0;
                assert(s[i] == s.drop_last()[i]);
            } else {
                assert(s[s.len() - 1].name == cur[j].0);
            }
        }
    }
}

/// The config of the estimation maps the name of each sheet to the table found
/// in the sheet, or to `skip` where none was found; of sheets with the same name,
/// the last one counts.
pub proof fn lemma_config_sheet_of(s: Seq<SheetAnalysisView>, i: int)
    requires
        0 <= i < s.len(),
        forall|j: int| i < j < s.len() ==> #[trigger] s[j].name != s[i].name,
    ensures
        lookup(config_sheets_of(s), s[i].name) == Some(analysis_sheet_config(s[i])),
    decreases s.len(),
{
    let p = s.drop_last();
    lemma_config_sheets(p);
    lemma_sorted_insert(config_sheets_of(p), s.last().name, analysis_sheet_config(s.last()));
    if i < s.len() - 1 {
        assert(s[s.len() - 1].name != s[i].name);
        assert forall|j: int| i < j < p.len() implies #[trigger] p[j].name != p[i].name by {
            assert(p[j] == s[j] && p[i] == s[i]);
        }
        lemma_config_sheet_of(p, i);
        assert(p[i] == s[i]);
    }
}

/// Checking a workbook with the config estimated for it reports no sheet that is
/// only in one of them.
pub proof fn lemma_estimated_config_covers_sheets(wb: Seq<SheetView>, pattern: Seq<char>, max_column: u32)
    ensures
        sheet_problems_of(wb, config_sheets_of(analyses_of(wb, pattern, max_column))) == Seq::<
            ProblemView,
        >::empty(),
{
    let a = analyses_of(wb, pattern, max_column);
    let cs = config_sheets_of(a);
    lemma_config_sheets(a);
    let names = wb.map_values(|s: SheetView| s.name);
    assert forall|k: int| 0 <= k < names.len() implies #[trigger] lookup(cs, names[k]) is Some by {
        assert(a[k].name == names[k]);
    }
    lemma_no_unknown_sheets(names, cs);
    assert forall|j: int| 0 <= j < cs.len() implies has_sheet(wb, #[trigger] cs[j].0) by {
        let i = choose|i: int| 0 <= i < a.len() && a[i].name == #[trigger] cs[j].0;
        lemma_has_sheet(wb, i);
    }
    lemma_no_missing_sheets(wb, cs);
}

/// The config that is written for an estimated table is accepted when it is read
/// back, as the same layout.
pub proof fn lemma_estimated_layout_accepted(
    wb: Seq<SheetView>,
    sheet: Seq<char>,
    pattern: Seq<char>,
    max_column: u32,
)
    ensures
        estimate_of(wb, sheet, pattern, max_column) matches Some(t) ==> sheet_config_of(
            RawSheetConfig {
                skip: false,
                id_column: Some(t.layout.id_column),
                name_column: t.layout.name_column,
                start_row: Some(t.layout.start_row),
                end_row: Some(t.layout.end_row),
            },
        ) == Ok::<SheetConfig, Seq<char>>(SheetConfig::Student(t.layout)),
{
    columns::lemma_estimate(wb, sheet, pattern, max_column);
}

impl Analysis {
    /// Estimates the layouts of the sheets in the workbook. It also returns the
    /// warnings about the estimations which users should review.
    pub fn new(file: String, workbook: &Workbook, options: &InitOptions, pattern: &IdPattern) -> (r: (
        Self,
        Vec<String>,
    ))
        ensures
            r.0.file == file,
            r.0.id_pattern@ == options.id_pattern@,
            sheets_view(r.0.sheets@) == analyses_of(workbook@, pattern@, options.max_column),
            strings_view(r.1@) == analysis_warnings(
                workbook@,
                pattern@,
                options.max_column,
                workbook@.len() as int,
            ),
    {
        let names = workbook.sheet_names();
        let ghost wb = workbook@;
        let mut sheets: Vec<SheetAnalysis> = Vec::new();
        let mut warnings: Vec<String> = Vec::new();
        let mut i: usize = 0;
        while i < names.len()
            invariant
                i <= names.len(),
                wb == workbook@,
                names@.len() == wb.len(),
                forall|k: int| 0 <= k < names@.len() ==> (#[trigger] names@[k])@ == wb[k].name,
                sheets_view(sheets@) == analyses_of(wb, pattern@, options.max_column).take(i as int),
                strings_view(warnings@) == analysis_warnings(wb, pattern@, options.max_column, i as int),
            decreases names.len() - i,
        {
            assert(names@[i as int]@ == wb[i as int].name);
            let (sheet, mut found) = columns::analyze(workbook, names[i].as_str(), pattern, options.max_column);
            let ghost (before, w_before, added) = (sheets@, warnings@, found@);
            sheets.push(sheet);
            warnings.append(&mut found);
            assert(sheets_view(sheets@) =~= sheets_view(before).push(sheet@));
            assert(analyses_of(wb, pattern@, options.max_column).take(i + 1) =~= analyses_of(
                wb,
                pattern@,
                options.max_column,
            ).take(i as int).push(sheet@));
            assert(strings_view(warnings@) =~= strings_view(w_before) + strings_view(added));
            i += 1;
        }
        assert(analyses_of(wb, pattern@, options.max_column).take(names.len() as int) =~= analyses_of(
            wb,
            pattern@,
            options.max_column,
        ));
        (Analysis { file, id_pattern: options.id_pattern.clone(), sheets }, warnings)
    }

    /// Converts the estimation into the config: the estimated table of each
    /// student sheet, and `skip` for the others.
    pub fn config(&self) -> (r: Config)
        ensures
            r.id_pattern@ == self.id_pattern@,
            r.sheets_view() == config_sheets_of(sheets_view(self.sheets@)),
            r.wf(),
    {
        let ghost sv = sheets_view(self.sheets@);
        let mut config = Config::new(self.id_pattern.clone());
        let mut i: usize = 0;
        while i < self.sheets.len()
            invariant
                i <= self.sheets.len(),
                sv == sheets_view(self.sheets@),
                config.id_pattern@ == self.id_pattern@,
                config.wf(),
                config.sheets_view() == config_sheets_of(sv.take(i as int)),
            decreases self.sheets.len() - i,
        {
            assert(sv.take(i + 1).drop_last() =~= sv.take(i as int));
            let sheet = &self.sheets[i];
            let sheet_config = match &sheet.table {
                Some(table) => SheetConfig::Student(table.layout),
                None => SheetConfig::Skip,
            };
            config.insert(sheet.name.clone(), sheet_config);
            i += 1;
        }
        assert(sv.take(self.sheets.len() as int) =~= sv);
        config
    }

    /// Renders the estimation as a config file in JSON5 with comments.
    pub fn to_json5(&self) -> (r: String)
        ensures
            r@ == analysis_text(self.id_pattern@, sheets_view(self.sheets@)),
    {
        render::render(self)
    }
}

} // verus!
