//! The config of an Excel file: the student table of each sheet.
//!
//! The config file is written in JSON5. Reading it is done by the command around
//! the library, which hands each sheet config to [`SheetConfig::from_raw`].
use vstd::prelude::*;
use crate::formula::opt_view;
use crate::student::DEFAULT_ID_PATTERN;
use crate::text::{append, chars_of, decimal, decimal_chars, entries_view, chars_lt, insert_sorted, keys_sorted, lemma_lookup_index, lemma_lookup_some, lemma_sorted_insert, lookup, sorted_insert, string_of};

verus! {

/// The layout of the student table in a sheet. All indices are 0-origin and inclusive.
#[derive(Debug, Clone, Copy, PartialEq, Eq, Structural)]
pub struct TableLayout {
    pub id_column: u32,
    pub name_column: Option<u32>,
    pub start_row: u32,
    pub end_row: u32,
}

impl TableLayout {
    /// Returns true if the row is in the table.
    pub fn contains_row(&self, row: u32) -> (r: bool)
        ensures
            r == (self.start_row <= row && row <= self.end_row),
    {
        self.start_row <= row && row <= self.end_row
    }
}

/// The config of a sheet.
#[derive(Debug, Clone, Copy, PartialEq, Eq, Structural)]
pub enum SheetConfig {
    /// Not a student sheet (`skip: true`).
    Skip,
    Student(TableLayout),
}

/// The sheet config as written in the file.
#[derive(Debug, Clone, Copy, PartialEq, Eq, Structural)]
pub struct RawSheetConfig {
    pub skip: bool,
    pub id_column: Option<u32>,
    pub name_column: Option<u32>,
    pub start_row: Option<u32>,
    pub end_row: Option<u32>,
}

pub open spec fn missing_field(key: Seq<char>) -> Seq<char> {
    "missing field `"@ + key + "`"@
}

/// The message of a table whose rows are reversed.
pub open spec fn reversed_rows(start: u32, end: u32) -> Seq<char> {
    "start_row ("@ + decimal(start as nat) + ") exceeds end_row ("@ + decimal(end as nat) + ")"@
}

/// The sheet config of the one written in the file: `Skip` with `skip: true`, or
/// the student table, which needs `id_column`, `start_row`, and `end_row` in order
/// (`start_row <= end_row`).
pub open spec fn sheet_config_of(raw: RawSheetConfig) -> Result<SheetConfig, Seq<char>> {
    if raw.skip {
        Ok(SheetConfig::Skip)
    } else if raw.id_column is None {
        Err(missing_field("id_column"@))
    } else if raw.start_row is None {
        Err(missing_field("start_row"@))
    } else if raw.end_row is None {
        Err(missing_field("end_row"@))
    } else if raw.start_row->0 > raw.end_row->0 {
        Err(reversed_rows(raw.start_row->0, raw.end_row->0))
    } else {
        Ok(
            SheetConfig::Student(
                TableLayout {
                    id_column: raw.id_column->0,
                    name_column: raw.name_column,
                    start_row: raw.start_row->0,
                    end_row: raw.end_row->0,
                },
            ),
        )
    }
}

pub open spec fn result_view<T>(r: Result<T, String>) -> Result<T, Seq<char>> {
    match r {
        Ok(v) => Ok(v),
        Err(e) => Err(e@),
    }
}

fn missing(key: &str) -> (r: String)
    ensures
        r@ == missing_field(key@),
{
    let mut t = chars_of("missing field `");
    append(&mut t, &chars_of(key));
    append(&mut t, &chars_of("`"));
    string_of(&t)
}

impl SheetConfig {
    /// Converts the sheet config written in the file, and checks it.
    pub fn from_raw(raw: RawSheetConfig) -> (r: Result<Self, String>)
        ensures
            result_view(r) == sheet_config_of(raw),
    {
        if raw.skip {
            return Ok(SheetConfig::Skip);
        }
        let id_column = match raw.id_column {
            Some(v) => v,
            None => {
                return Err(missing("id_column"));
            },
        };
        let start_row = match raw.start_row {
            Some(v) => v,
            None => {
                return Err(missing("start_row"));
            },
        };
        let end_row = match raw.end_row {
            Some(v) => v,
            None => {
                return Err(missing("end_row"));
            },
        };
        if start_row > end_row {
            let mut t = chars_of("start_row (");
            append(&mut t, &decimal_chars(start_row as u64));
            append(&mut t, &chars_of(") exceeds end_row ("));
            append(&mut t, &decimal_chars(end_row as u64));
            append(&mut t, &chars_of(")"));
            return Err(string_of(&t));
        }
        Ok(SheetConfig::Student(TableLayout { id_column, name_column: raw.name_column, start_row, end_row }))
    }
}

/// The config for an Excel file.
#[derive(Debug, Clone, PartialEq, Eq)]
pub struct Config {
    /// The pattern of student ids.
    pub id_pattern: String,
    /// The sheet configs by sheet names, in the order of the names.
    pub sheets: Vec<(String, SheetConfig)>,
}

impl Config {
    /// The sheet configs by sheet names, in the order of the names.
    pub open spec fn sheets_view(&self) -> Seq<(Seq<char>, SheetConfig)> {
        entries_view(self.sheets@)
    }

    /// The sheet names are in order, without duplicates.
    pub open spec fn wf(&self) -> bool {
        keys_sorted(self.sheets_view())
    }

    /// Creates a config without sheets.
    pub fn new(id_pattern: String) -> (r: Self)
        ensures
            r.id_pattern == id_pattern,
            r.sheets_view() == Seq::<(Seq<char>, SheetConfig)>::empty(),
            r.wf(),
    {
        let r = Config { id_pattern, sheets: Vec::new() };
        assert(r.sheets_view() =~= Seq::<(Seq<char>, SheetConfig)>::empty());
        r
    }

    /// Sets the config of the sheet (replacing the one of the same name).
    pub fn insert(&mut self, name: String, sheet: SheetConfig)
        requires
            old(self).wf(),
        ensures
            final(self).wf(),
            final(self).id_pattern == old(self).id_pattern,
            final(self).sheets_view() == sorted_insert(old(self).sheets_view(), name@, sheet),
    {
        insert_sorted(&mut self.sheets, name, sheet);
    }

    /// The sheet names and their configs, in the order of the names.
    pub fn sheets(&self) -> (r: &Vec<(String, SheetConfig)>)
        ensures
            entries_view(r@) == self.sheets_view(),
    {
        &self.sheets
    }

    /// Returns the config of the sheet.
    pub fn get(&self, name: &str) -> (r: Option<SheetConfig>)
        ensures
            r == lookup(self.sheets_view(), name@),
    {
        let ghost s = self.sheets_view();
        let n = chars_of(name);
        let mut i: usize = 0;
        assert(s.skip(0) =~= s);
        while i < self.sheets.len()
            invariant
                i <= self.sheets.len(),
                s == entries_view(self.sheets@),
                n@ == name@,
                lookup(s, name@) == lookup(s.skip(i as int), name@),
            decreases self.sheets.len() - i,
        {
            assert(s.skip(i as int).drop_first() =~= s.skip(i + 1));
            assert(s[i as int].0 == self.sheets@[i as int].0@);
            if crate::text::chars_eq(&chars_of(self.sheets[i].0.as_str()), &n) {
                return Some(self.sheets[i].1);
            }
            i += 1;
        }
        None
    }

    /// Returns true if the config has the sheet.
    pub fn contains_key(&self, name: &str) -> (r: bool)
        ensures
            r == (lookup(self.sheets_view(), name@) is Some),
    {
        self.get(name).is_some()
    }

    /// Returns the student sheets and their layouts, in the order of the names.
    pub fn student_sheets(&self) -> (r: Vec<(String, TableLayout)>)
        ensures
            entries_view(r@) == student_sheets_of(self.sheets_view()),
    {
        let ghost s = self.sheets_view();
        let mut r: Vec<(String, TableLayout)> = Vec::new();
        let mut i: usize = 0;
        while i < self.sheets.len()
            invariant
                i <= self.sheets.len(),
                s == entries_view(self.sheets@),
                entries_view(r@) == student_sheets_of(s.take(i as int)),
            decreases self.sheets.len() - i,
        {
            assert(s.take(i + 1).drop_last() =~= s.take(i as int));
            assert(s.take(i + 1).last() == s[i as int]);
            assert(s[i as int] == (self.sheets@[i as int].0@, self.sheets@[i as int].1));
            let ghost before = r@;
            match self.sheets[i].1 {
                SheetConfig::Student(layout) => {
                    r.push((self.sheets[i].0.clone(), layout));
                    assert(entries_view(r@) =~= entries_view(before).push((s[i as int].0, layout)));
                },
                SheetConfig::Skip => {},
            }
            i += 1;
        }
        assert(s.take(self.sheets.len() as int) =~= s);
        r
    }
}

/// Setting the config of a sheet: reading it back gives it, and the configs of the
/// other sheets stay as they were.
pub proof fn lemma_insert_get(config: Config, name: Seq<char>, sheet: SheetConfig, other: Seq<char>)
    requires
        config.wf(),
    ensures
        lookup(sorted_insert(config.sheets_view(), name, sheet), name) == Some(sheet),
        other != name ==> lookup(sorted_insert(config.sheets_view(), name, sheet), other) == lookup(
            config.sheets_view(),
            other,
        ),
        keys_sorted(sorted_insert(config.sheets_view(), name, sheet)),
{
    lemma_sorted_insert(config.sheets_view(), name, sheet);
}

/// The student sheets and their layouts, in order.
pub open spec fn student_sheets_of(s: Seq<(Seq<char>, SheetConfig)>) -> Seq<(Seq<char>, TableLayout)>
    decreases s.len(),
{
    if s.len() == 0 {
        Seq::empty()
    } else {
        match s.last().1 {
            SheetConfig::Student(layout) => student_sheets_of(s.drop_last()).push((s.last().0, layout)),
            SheetConfig::Skip => student_sheets_of(s.drop_last()),
        }
    }
}

/// Each student sheet is a sheet whose config is that student table.
proof fn lemma_student_sheets_source(s: Seq<(Seq<char>, SheetConfig)>)
    ensures
        forall|j: int|
            0 <= j < student_sheets_of(s).len() ==> exists|i: int|
                0 <= i < s.len() && #[trigger] s[i] == (
                    #[trigger] student_sheets_of(s)[j].0,
                    SheetConfig::Student(student_sheets_of(s)[j].1),
                ),
    decreases s.len(),
{
    if s.len() > 0 {
        let p = s.drop_last();
        lemma_student_sheets_source(p);
        let q = student_sheets_of(p);
        let out = student_sheets_of(s);
        let n = s.len() - 1;
        assert forall|j: int| 0 <= j < out.len() implies exists|i: int|
            0 <= i < s.len() && #[trigger] s[i] == (
                #[trigger] out[j].0,
                SheetConfig::Student(out[j].1),
            ) by {
            if j < q.len() {
                assert(out[j] == q[j]);
                let i = choose|i: int|
                    0 <= i < p.len() && #[trigger] p[i] == (#[trigger] q[j].0, SheetConfig::Student(q[j].1));
                assert(s[i] == p[i]);
            } else {
                assert(s[n] == (out[j].0, SheetConfig::Student(out[j].1)));
            }
        }
    }
}

/// Each sheet whose config is a student table is among the student sheets.
proof fn lemma_student_sheets_complete(s: Seq<(Seq<char>, SheetConfig)>)
    ensures
        forall|i: int|
            0 <= i < s.len() && #[trigger] s[i].1 is Student ==> exists|j: int|
                0 <= j < student_sheets_of(s).len() && #[trigger] student_sheets_of(s)[j] == (
                    s[i].0,
                    s[i].1->Student_0,
                ),
    decreases s.len(),
{
    if s.len() > 0 {
        let p = s.drop_last();
        lemma_student_sheets_complete(p);
        let q = student_sheets_of(p);
        let out = student_sheets_of(s);
        let n = s.len() - 1;
        assert forall|i: int| 0 <= i < s.len() && #[trigger] s[i].1 is Student implies exists|j: int|
            0 <= j < out.len() && #[trigger] out[j] == (s[i].0, s[i].1->Student_0) by {
            if i < n {
                assert(p[i] == s[i]);
                assert(p[i].1 is Student);
                let j = choose|j: int| 0 <= j < q.len() && #[trigger] q[j] == (p[i].0, p[i].1->Student_0);
                assert(out[j] == q[j]);
            } else {
                assert(out[out.len() - 1] == (s[i].0, s[i].1->Student_0));
            }
        }
    }
}

/// Sorted names stay sorted among the student sheets.
proof fn lemma_student_sheets_sorted(s: Seq<(Seq<char>, SheetConfig)>)
    requires
        keys_sorted(s),
    ensures
        keys_sorted(student_sheets_of(s)),
    decreases s.len(),
{
    if s.len() > 0 {
        let p = s.drop_last();
        assert(keys_sorted(p)) by {
            assert forall|a: int, b: int| 0 <= a < b < p.len() implies chars_lt(
                #[trigger] p[a].0,
                #[trigger] p[b].0,
            ) by {
                assert(p[a] == s[a] && p[b] == s[b]);
            }
        }
        lemma_student_sheets_sorted(p);
        lemma_student_sheets_source(p);
        let q = student_sheets_of(p);
        let out = student_sheets_of(s);
        let n = s.len() - 1;
        if let SheetConfig::Student(layout) = s[n].1 {
            assert(out == q.push((s[n].0, layout)));
            assert forall|a: int, b: int| 0 <= a < b < out.len() implies chars_lt(
                #[trigger] out[a].0,
                #[trigger] out[b].0,
            ) by {
                assert(out[a] == q[a]);
                if b < q.len() {
                    assert(out[b] == q[b]);
                } else {
                    let i = choose|i: int|
                        0 <= i < p.len() && #[trigger] p[i] == (#[trigger] q[a].0, SheetConfig::Student(q[a].1));
                    assert(s[i] == p[i]);
                    assert(out[b] == (s[n].0, layout));
                    assert(chars_lt(s[i].0, s[n].0));
                }
            }
        } else {
            assert(out == q);
        }
    }
}

/// The student sheets of a config list each sheet whose config is a student
/// table, with that table, once and in strictly ascending order of the names; a
/// skipped sheet is not among them.
pub proof fn lemma_student_sheets(config: Config)
    requires
        config.wf(),
    ensures
        keys_sorted(student_sheets_of(config.sheets_view())),
        forall|j: int|
            0 <= j < student_sheets_of(config.sheets_view()).len() ==> lookup(
                config.sheets_view(),
                #[trigger] student_sheets_of(config.sheets_view())[j].0,
            ) == Some(SheetConfig::Student(student_sheets_of(config.sheets_view())[j].1)),
        forall|name: Seq<char>|
            #[trigger] lookup(config.sheets_view(), name) matches Some(SheetConfig::Student(layout))
                ==> exists|j: int|
                0 <= j < student_sheets_of(config.sheets_view()).len() && #[trigger] student_sheets_of(
                    config.sheets_view(),
                )[j] == (name, layout),
{
    let s = config.sheets_view();
    let out = student_sheets_of(s);
    lemma_student_sheets_source(s);
    lemma_student_sheets_complete(s);
    lemma_student_sheets_sorted(s);
    assert forall|j: int| 0 <= j < out.len() implies lookup(s, #[trigger] out[j].0) == Some(
        SheetConfig::Student(out[j].1),
    ) by {
        let i = choose|i: int|
            0 <= i < s.len() && #[trigger] s[i] == (out[j].0, SheetConfig::Student(out[j].1));
        lemma_lookup_index(s, i);
    }
    assert forall|name: Seq<char>|
        #[trigger] lookup(s, name) matches Some(SheetConfig::Student(layout)) ==> exists|j: int|
            0 <= j < out.len() && #[trigger] out[j] == (name, layout) by {
        if let Some(SheetConfig::Student(layout)) = lookup(s, name) {
            lemma_lookup_some(s, name);
            let i = choose|i: int|
                0 <= i < s.len() && #[trigger] s[i].0 == name && s[i].1 == SheetConfig::Student(layout);
            assert(s[i].1 is Student);
        }
    }
}

/// The default pattern of student ids.
pub fn default_id_pattern() -> (r: String)
    ensures
        r@ == DEFAULT_ID_PATTERN@,
{
    String::from_str(DEFAULT_ID_PATTERN)
}

// ---------------------------------------------------------------------------
// Paths.

/// The last component of the path (`Path::file_name`), if any.
pub uninterp spec fn path_file_name(path: Seq<char>) -> Option<Seq<char>>;

/// The path with its last component replaced (`Path::with_file_name`).
pub uninterp spec fn path_with_file_name(path: Seq<char>, name: Seq<char>) -> Seq<char>;

/// `std::path::Path::file_name` of the path, as text. The result is named by
/// [`path_file_name`].
#[verifier::external_body]
fn file_name(path: &str) -> (r: Option<String>)
    ensures
        opt_view(r) == path_file_name(path@),
{
    std::path::Path::new(path).file_name().map(|n| n.to_string_lossy().into_owned())
}

/// `std::path::Path::with_file_name` of the path, as text. The result is named by
/// [`path_with_file_name`].
#[verifier::external_body]
fn with_file_name(path: &str, name: &str) -> (r: String)
    ensures
        r@ == path_with_file_name(path@, name@),
{
    std::path::Path::new(path).with_file_name(name).to_string_lossy().into_owned()
}

/// The name of the config file of the Excel file name: `mosty.<EXCEL_FILE>.json5`.
pub open spec fn config_file_name(excel: Seq<char>) -> Seq<char> {
    "mosty."@ + excel + ".json5"@
}

/// Returns the default path of the config file for the Excel file
/// (`mosty.<EXCEL_FILE>.json5` in the same directory).
pub fn default_config_path(excel: &str) -> (r: String)
    ensures
        r@ == path_with_file_name(
            excel@,
            config_file_name(
                match path_file_name(excel@) {
                    Some(n) => n,
                    None => Seq::empty(),
                },
            ),
        ),
{
    let name = match file_name(excel) {
        Some(n) => chars_of(n.as_str()),
        None => Vec::new(),
    };
    let mut t = chars_of("mosty.");
    append(&mut t, &name);
    append(&mut t, &chars_of(".json5"));
    let file = string_of(&t);
    with_file_name(excel, file.as_str())
}

} // verus!
