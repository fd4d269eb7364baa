use mosty::cell::CellRef;
use mosty::config::{Config, SheetConfig, TableLayout};
use mosty::problem::Problem;
use mosty::student::{CellValue, IdPattern, DEFAULT_ID_PATTERN};
use mosty::table::{RowReader, StudentTable};
use mosty::workbook::{Resolved, Sheet, Unresolved, Workbook};

/// A sheet of the given cells (`A1` style) with values and formulas.
fn sheet(name: &str, values: &[(&str, CellValue)], formulas: &[(&str, &str)]) -> Sheet {
    let values: Vec<(CellRef, CellValue)> = values
        .iter()
        .map(|(c, v)| (CellRef::parse(c).unwrap(), v.clone()))
        .collect();
    let formulas: Vec<(CellRef, String)> = formulas
        .iter()
        .map(|(c, f)| (CellRef::parse(c).unwrap(), f.to_string()))
        .collect();
    let rows = |cells: Vec<u32>| -> Option<(u32, u32)> {
        Some((*cells.iter().min()?, *cells.iter().max()?))
    };
    let value_rows = rows(values.iter().map(|(c, _)| c.row).collect());
    let formula_rows = rows(formulas.iter().map(|(c, _)| c.row).collect());
    Sheet::new(name.to_string(), values, formulas, value_rows, formula_rows)
}

fn text(s: &str) -> CellValue {
    CellValue::String(s.to_string())
}

fn roster() -> Sheet {
    sheet(
        "名簿",
        &[
            ("A1", text("学生証番号")),
            ("B1", text("氏名")),
            ("A2", CellValue::Int(1234001)),
            ("B2", text("京産 太郎")),
            ("A3", CellValue::Int(1234002)),
            ("B3", text("京産 花子")),
            ("A4", text("1234003")),
            ("B4", text("山田 一郎")),
        ],
        &[],
    )
}

#[test]
fn resolve_follows_references_without_cache() {
    let tasks = sheet(
        "課題",
        &[("B2", CellValue::Int(90))],
        &[("A2", "名簿!A3"), ("A3", "=A2"), ("A4", "TEXT(名簿!A4,\"0\")"), ("A5", "A6"), ("A6", "A5")],
    );
    let workbook = Workbook::new(vec![roster(), tasks]);
    assert_eq!(
        workbook.resolve("課題", CellRef::new(1, 0)),
        Resolved::Value(CellValue::Int(1234002))
    );
    assert_eq!(
        workbook.resolve("課題", CellRef::new(2, 0)),
        Resolved::Value(CellValue::Int(1234002))
    );
    assert_eq!(
        workbook.resolve("課題", CellRef::new(3, 0)),
        Resolved::Unresolved(Unresolved::NotSimple)
    );
    assert_eq!(
        workbook.resolve("課題", CellRef::new(4, 0)),
        Resolved::Unresolved(Unresolved::TooDeep)
    );
    assert_eq!(workbook.resolve("課題", CellRef::new(9, 9)), Resolved::Empty);
    assert_eq!(workbook.rows("課題"), Some((1, 5)));
    assert_eq!(workbook.rows("名簿"), Some((0, 3)));
    assert_eq!(workbook.rows("なし"), None);
    assert_eq!(workbook.sheet_names(), vec!["名簿".to_string(), "課題".to_string()]);
    assert!(workbook.contains("課題") && !workbook.contains("試験"));
}

#[test]
fn unclosed_external_reference_is_not_simple() {
    let sheet = sheet("課題", &[], &[("A2", "[1Sheet1!A1")]);
    let workbook = Workbook::new(vec![sheet]);
    assert_eq!(
        workbook.resolve("課題", CellRef::parse("A2").unwrap()),
        Resolved::Unresolved(Unresolved::NotSimple)
    );
}

#[test]
fn student_table_rows() {
    let workbook = Workbook::new(vec![roster()]);
    let pattern = IdPattern::default();
    let layout = TableLayout {
        id_column: 0,
        name_column: Some(1),
        start_row: 0,
        end_row: 5,
    };
    let table = StudentTable::build("名簿", layout, &workbook, &pattern);
    assert_eq!(table.student(0), None);
    let student = table.student(3).unwrap();
    assert_eq!(student.id.0, "1234003");
    assert_eq!(student.name.as_deref(), Some("山田 一郎"));
    let rows: Vec<u32> = table.students_in(2..=9).into_iter().map(|(r, _)| r).collect();
    assert_eq!(rows, vec![2, 3]);
    assert!(table.is_id_cell(CellRef::new(1, 0)));
    assert!(!table.is_id_cell(CellRef::new(1, 1)));
    assert!(!table.is_id_cell(CellRef::new(0, 0)));
    assert!(table.duplicates().is_empty());
}

#[test]
fn duplicated_ids_in_a_table() {
    let exam = sheet(
        "試験",
        &[
            ("A2", CellValue::Int(1234002)),
            ("A3", CellValue::Int(1234001)),
            ("A4", CellValue::Int(1234002)),
            ("A5", CellValue::Int(1234001)),
            ("A6", CellValue::Int(1234002)),
            ("A7", CellValue::Int(1234003)),
        ],
        &[],
    );
    let workbook = Workbook::new(vec![exam]);
    let pattern = IdPattern::default();
    let layout = TableLayout {
        id_column: 0,
        name_column: None,
        start_row: 1,
        end_row: 6,
    };
    let table = StudentTable::build("試験", layout, &workbook, &pattern);
    let dups = table.duplicates();
    assert_eq!(dups.len(), 2);
    assert_eq!(dups[0].0 .0, "1234001");
    assert_eq!(dups[0].1, vec![CellRef::new(2, 0), CellRef::new(4, 0)]);
    assert_eq!(dups[1].0 .0, "1234002");
    assert_eq!(
        dups[1].1,
        vec![CellRef::new(1, 0), CellRef::new(3, 0), CellRef::new(5, 0)]
    );
}

#[test]
fn names_are_texts_which_are_neither_numbers_nor_ids() {
    let s = sheet(
        "s",
        &[
            ("A1", text("山田 一郎")),
            ("A2", text(" 1.5e3 ")),
            ("A3", text("1234001")),
            ("A4", CellValue::Int(7)),
            ("A5", text("inf")),
            ("A6", text("-.5")),
            ("A7", text("e5")),
            ("A8", text("   ")),
        ],
        &[],
    );
    let workbook = Workbook::new(vec![s]);
    let pattern = IdPattern::default();
    let reader = RowReader::new(&workbook, "s", &pattern);
    let names: Vec<bool> = (0..8).map(|row| reader.is_name_like(CellRef::new(row, 0))).collect();
    assert_eq!(names, vec![true, false, false, false, false, false, true, false]);
    assert_eq!(reader.id(CellRef::new(2, 0)).unwrap().0, "1234001");
    assert_eq!(reader.quiet_id(CellRef::new(0, 0)), None);
}

#[test]
fn unresolved_warning_of_an_id() {
    let tasks = sheet("課題", &[], &[("A2", "TEXT(名簿!A4,\"0\")")]);
    let workbook = Workbook::new(vec![roster(), tasks]);
    let pattern = IdPattern::default();
    let reader = RowReader::new(&workbook, "課題", &pattern);
    assert_eq!(
        reader.unresolved_warning(CellRef::new(1, 0)).unwrap(),
        "課題!A2: the student id cannot be resolved (NotSimple); open and save the file in Excel"
    );
    assert_eq!(reader.unresolved_warning(CellRef::new(0, 0)), None);
}

#[test]
fn config_default_pattern() {
    let config = Config::new(DEFAULT_ID_PATTERN.to_string());
    assert!(config.sheets().is_empty());
    assert_eq!(config.get("x"), None::<SheetConfig>);
    let _unused: Option<Problem> = None;
}
