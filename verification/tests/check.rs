use mosty::cell::CellRef;
use mosty::checker::Note;
use mosty::config::{Config, SheetConfig, TableLayout};
use mosty::estimator::InitOptions;
use mosty::problem::Problem;
use mosty::student::{CellValue, DEFAULT_ID_PATTERN};
use mosty::workbook::{Sheet, Workbook};
use mosty::Error;

fn sheet(name: &str, values: &[(&str, CellValue)], formulas: &[(&str, &str)]) -> Sheet {
    let values: Vec<(CellRef, CellValue)> = values
        .iter()
        .map(|(c, v)| (CellRef::parse(c).unwrap(), v.clone()))
        .collect();
    let formulas: Vec<(CellRef, String)> = formulas
        .iter()
        .map(|(c, f)| (CellRef::parse(c).unwrap(), f.to_string()))
        .collect();
    let rows = |cells: Vec<u32>| -> Option<(u32, u32)> {
        Some((*cells.iter().min()?, *cells.iter().max()?))
    };
    let value_rows = rows(values.iter().map(|(c, _)| c.row).collect());
    let formula_rows = rows(formulas.iter().map(|(c, _)| c.row).collect());
    Sheet::new(name.to_string(), values, formulas, value_rows, formula_rows)
}

fn text(s: &str) -> CellValue {
    CellValue::String(s.to_string())
}

const IDS: [i64; 5] = [1234001, 1234002, 1234003, 1234004, 1234005];
const NAMES: [&str; 5] = ["京産 太郎", "京産 花子", "山田 一郎", "佐藤 次郎", "鈴木 三子"];

/// A sheet with a header row, and student ids in A and names in B from row 2.
fn student_sheet(name: &str, extra: &[(&str, CellValue)], formulas: &[(&str, &str)]) -> Sheet {
    let mut values: Vec<(String, CellValue)> = vec![
        ("A1".to_string(), text("学生証番号")),
        ("B1".to_string(), text("氏名")),
    ];
    for (i, (id, n)) in IDS.iter().zip(NAMES).enumerate() {
        values.push((format!("A{}", i + 2), CellValue::Int(*id)));
        values.push((format!("B{}", i + 2), text(n)));
    }
    for (c, v) in extra {
        values.push((c.to_string(), v.clone()));
    }
    let refs: Vec<(&str, CellValue)> = values.iter().map(|(c, v)| (c.as_str(), v.clone())).collect();
    sheet(name, &refs, formulas)
}

fn layout() -> TableLayout {
    TableLayout {
        id_column: 0,
        name_column: Some(1),
        start_row: 1,
        end_row: 5,
    }
}

fn workbook() -> Workbook {
    Workbook::new(workbook_sheets())
}

fn workbook_sheets() -> Vec<Sheet> {
    let roster = student_sheet("名簿", &[], &[]);
    let tasks = student_sheet(
        "課題",
        &[("E2", CellValue::Int(80)), ("E3", CellValue::Int(70)), ("E4", CellValue::Int(60)), ("E5", CellValue::Int(50)), ("E6", CellValue::Int(40))],
        &[],
    );
    let points = sheet("配点", &[("B2", CellValue::Int(20))], &[]);
    let final_grades = student_sheet(
        "最終成績",
        &[],
        &[
            ("C2", "課題!E2*配点!$B$2"),
            ("D2", "SUM(課題!E2:E6)"),
            ("C3", "課題!E3"),
            ("D3", "VLOOKUP(A3,課題!$A$2:$E$6,5,FALSE)"),
            ("C4", "課題!E5"),
            ("D4", "OFFSET(課題!E4,1,0)"),
            ("C5", "課題!E5+名簿!B5"),
            ("C6", "課題!E6+C5"),
            ("A7", "名簿!A6"),
        ],
    );
    vec![roster, tasks, points, final_grades]
}

fn config() -> Config {
    let mut config = Config::new(DEFAULT_ID_PATTERN.to_string());
    config.insert("名簿".to_string(), SheetConfig::Student(layout()));
    config.insert("課題".to_string(), SheetConfig::Student(TableLayout { name_column: None, ..layout() }));
    config.insert("配点".to_string(), SheetConfig::Skip);
    config.insert("最終成績".to_string(), SheetConfig::Student(layout()));
    config
}

fn messages(problems: &[Problem]) -> Vec<String> {
    problems.iter().map(Problem::to_string).collect()
}

#[test]
fn check_finds_mismatches_and_ranges() {
    let (report, warnings, _) = mosty::check("grades.xlsx".to_string(), &workbook(), &config()).unwrap();
    assert_eq!(report.file, "grades.xlsx");
    assert_eq!(
        messages(&report.problems),
        vec![
            "最終成績!A7: student id 1234005 is outside the student table",
            "最終成績!D2 (1234001 京産 太郎) -> 課題!E2:E6: range spans multiple students",
            "最終成績!C4 (1234003 山田 一郎) -> 課題!E5 (1234004): student id mismatch",
        ]
    );
    // C2, D2, C3, D3, C4, C5 (two sheets), C6; not OFFSET nor 配点 nor the same sheet.
    assert_eq!(report.summary.references, 8);
    assert_eq!(report.summary.sheets, 3);
    assert_eq!(report.summary.problems, 3);
    assert!(warnings.is_empty());
}

#[test]
fn check_finds_stale_sheets() {
    let mut config = config();
    config.insert("旧課題".to_string(), SheetConfig::Skip);
    let mut stale = Config::new(config.id_pattern.clone());
    for (name, sheet) in config.sheets() {
        if name != "配点" {
            stale.insert(name.clone(), *sheet);
        }
    }
    let (report, _, _) = mosty::check("grades.xlsx".to_string(), &workbook(), &stale).unwrap();
    let messages = messages(&report.problems);
    assert_eq!(messages[0], "配点: sheet is not in the config file (run `mosty init` again)");
    assert_eq!(messages[1], "旧課題: sheet is not in the workbook");
}

#[test]
fn check_finds_duplicates() {
    let exam = sheet(
        "試験",
        &[
            ("A2", CellValue::Int(1234003)),
            ("A3", CellValue::Int(1234003)),
            ("C2", CellValue::Int(1)),
            ("C3", CellValue::Int(2)),
        ],
        &[],
    );
    let final_grades = sheet(
        "最終成績",
        &[("A2", CellValue::Int(1234004))],
        &[("D2", "試験!C3")],
    );
    let workbook = Workbook::new(vec![exam, final_grades]);
    let mut config = Config::new(DEFAULT_ID_PATTERN.to_string());
    let table = TableLayout { id_column: 0, name_column: None, start_row: 1, end_row: 2 };
    config.insert("試験".to_string(), SheetConfig::Student(table));
    config.insert("最終成績".to_string(), SheetConfig::Student(TableLayout { end_row: 1, ..table }));
    let (report, _, _) = mosty::check("d.xlsx".to_string(), &workbook, &config).unwrap();
    assert_eq!(
        messages(&report.problems),
        vec![
            "試験: duplicated student id 1234003 at 試験!A2, 試験!A3",
            "最終成績!D2 (1234004) -> 試験!C3 (1234003): student id mismatch",
        ]
    );
    assert_eq!(report.summary.references, 1);
}

#[test]
fn check_warns_about_unresolved_ids() {
    let tasks = sheet(
        "課題",
        &[("A2", CellValue::Int(1234001))],
        &[("A3", "TEXT(名簿!A3,\"0\")"), ("A9", "TEXT(名簿!A3,\"0\")")],
    );
    let workbook = Workbook::new(vec![student_sheet("名簿", &[], &[]), tasks]);
    let mut config = Config::new(DEFAULT_ID_PATTERN.to_string());
    config.insert("課題".to_string(), SheetConfig::Student(TableLayout { end_row: 3, ..layout() }));
    config.insert("名簿".to_string(), SheetConfig::Skip);
    let (_, warnings, _) = mosty::check("w.xlsx".to_string(), &workbook, &config).unwrap();
    assert_eq!(
        warnings,
        vec![
            "課題!A3: the student id cannot be resolved (NotSimple); open and save the file in Excel",
            "課題!A9: the student id cannot be resolved (NotSimple); open and save the file in Excel",
        ]
    );
}

#[test]
fn check_refuses_an_invalid_pattern() {
    let mut config = config();
    config.id_pattern = "[0-9".to_string();
    assert!(matches!(
        mosty::check("grades.xlsx".to_string(), &workbook(), &config),
        Err(Error::Regex(_))
    ));
    let options = InitOptions {
        id_pattern: "(".to_string(),
        ..InitOptions::default()
    };
    assert!(matches!(
        mosty::init("grades.xlsx".to_string(), &workbook(), &options),
        Err(Error::Regex(_))
    ));
}

#[test]
fn init_estimates_layouts() {
    let (analysis, warnings) =
        mosty::init("grades.xlsx".to_string(), &workbook(), &InitOptions::default()).unwrap();
    // 最終成績!A7 refers to the id of the row above.
    assert_eq!(
        warnings,
        vec!["最終成績: duplicated student id 1234005 at 最終成績!A6, 最終成績!A7"]
    );
    let names: Vec<(&str, bool)> = analysis
        .sheets
        .iter()
        .map(|s| (s.name.as_str(), s.table.is_some()))
        .collect();
    assert_eq!(names, vec![("名簿", true), ("課題", true), ("配点", false), ("最終成績", true)]);
    let config = analysis.config();
    assert_eq!(config.get("名簿"), Some(SheetConfig::Student(layout())));
    assert_eq!(config.get("配点"), Some(SheetConfig::Skip));
    // The id in 最終成績!A7 extends the table to the row 7.
    assert_eq!(
        config.get("最終成績"),
        Some(SheetConfig::Student(TableLayout { end_row: 6, ..layout() }))
    );
    let table = analysis.sheets[0].table.as_ref().unwrap();
    assert_eq!((table.ids, table.names), (5, 5));
    assert!(table.tied_columns.is_empty());
    let (report, _, _) = mosty::check("grades.xlsx".to_string(), &workbook(), &config).unwrap();
    assert!(report.problems.iter().all(|p| !matches!(p, Problem::UnknownSheet { .. } | Problem::MissingSheet { .. })));
}

#[test]
fn init_renders_the_config() {
    let (analysis, _) =
        mosty::init("grades.xlsx".to_string(), &workbook(), &InitOptions::default()).unwrap();
    let text = analysis.to_json5();
    assert!(text.contains("  id_pattern: \"^[0-9]{7}$\",\n"), "{text}");
    assert!(text.contains("\"配点\": { skip: true }, // no student ids found"), "{text}");
    assert!(text.contains("id_column: 0, // A (student ids: 5)"), "{text}");
    assert!(text.contains("name_column: 1, // B (names: 5)"), "{text}");
    assert!(text.contains("start_row: 1, // Excel row 2"), "{text}");
    assert!(text.contains("end_row: 5, // Excel row 6"), "{text}");
}

#[test]
fn init_warns_about_ties_and_duplicates() {
    let s = sheet(
        "s",
        &[
            ("A2", CellValue::Int(1234001)),
            ("A3", CellValue::Int(1234001)),
            ("C2", CellValue::Int(1234002)),
            ("C3", CellValue::Int(1234003)),
        ],
        &[],
    );
    let workbook = Workbook::new(vec![s]);
    let (analysis, warnings) =
        mosty::init("t.xlsx".to_string(), &workbook, &InitOptions::default()).unwrap();
    let table = analysis.sheets[0].table.as_ref().unwrap();
    assert_eq!(table.layout.id_column, 0);
    assert_eq!(table.tied_columns, vec![2]);
    assert_eq!(
        warnings,
        vec![
            "s: columns A, C have the same number of student ids; chose A",
            "s: duplicated student id 1234001 at s!A2, s!A3",
        ]
    );
    assert!(analysis.to_json5().contains("      // as many student ids: C\n"));
    assert!(analysis.to_json5().contains("      // no name column found\n"));
}

#[test]
fn init_with_a_narrow_search() {
    let s = sheet("s", &[("B2", CellValue::Int(1234001)), ("C2", text("山田"))], &[]);
    let workbook = Workbook::new(vec![s]);
    let options = InitOptions { max_column: 0, ..InitOptions::default() };
    let (analysis, _) = mosty::init("n.xlsx".to_string(), &workbook, &options).unwrap();
    assert!(analysis.sheets[0].table.is_none());
    let (analysis, _) = mosty::init("n.xlsx".to_string(), &workbook, &InitOptions::default()).unwrap();
    let table = analysis.sheets[0].table.as_ref().unwrap();
    assert_eq!(table.layout.id_column, 1);
    assert_eq!(table.layout.name_column, Some(2));
}

#[test]
fn json_strings_are_escaped() {
    let s = sheet("a\"b\\c\nd", &[("A2", CellValue::Int(1234001))], &[]);
    let workbook = Workbook::new(vec![s]);
    let (analysis, _) = mosty::init("e.xlsx".to_string(), &workbook, &InitOptions::default()).unwrap();
    assert!(analysis.to_json5().contains("    \"a\\\"b\\\\c\\nd\": {\n"));
}

#[test]
fn check_notes_what_it_skips() {
    let final_grades = sheet(
        "最終成績",
        &[("A2", CellValue::Int(1234001)), ("A3", CellValue::Int(1234002))],
        &[
            ("C2", "SUM(課題合計)+課題!E1"),
            ("D2", "VLOOKUP(A2,課題!A2:E3,5,FALSE)"),
            ("C3", "課題!E3"),
        ],
    );
    let tasks = sheet(
        "課題",
        &[("A2", CellValue::Int(1234001)), ("A3", CellValue::Int(1234002))],
        &[],
    );
    let workbook = Workbook::new(vec![final_grades, tasks]);
    let mut config = Config::new(DEFAULT_ID_PATTERN.to_string());
    let table = TableLayout { id_column: 0, name_column: None, start_row: 1, end_row: 2 };
    config.insert("課題".to_string(), SheetConfig::Student(table));
    config.insert("最終成績".to_string(), SheetConfig::Student(table));
    let (report, _, notes) = mosty::check("n.xlsx".to_string(), &workbook, &config).unwrap();
    assert!(report.problems.is_empty());
    assert_eq!(report.summary.references, 3);
    assert_eq!(
        notes,
        vec![
            Note::Info("最終成績!C2: skipped `課題合計' (not resolvable statically)".to_string()),
            Note::Info("最終成績!C2 -> 課題!E1: references a non-student row".to_string()),
            Note::Debug("最終成績!D2: skipped the lookup range 課題!A2:E3".to_string()),
        ]
    );
}

#[test]
fn rendered_config_reads_back() {
    let s = sheet("a\"b\\c\nd", &[("A2", CellValue::Int(1234001))], &[]);
    let mut sheets = vec![s];
    sheets.extend(workbook_sheets());
    let workbook = Workbook::new(sheets);
    let (analysis, _) =
        mosty::init("r.xlsx".to_string(), &workbook, &InitOptions::default()).unwrap();
    let value: serde_json::Value = json5::from_str(&analysis.to_json5()).unwrap();
    assert_eq!(value["id_pattern"], DEFAULT_ID_PATTERN);
    let config = analysis.config();
    let read = value["sheets"].as_object().unwrap();
    assert_eq!(read.len(), config.sheets().len());
    for (name, sheet) in config.sheets() {
        let v = &read[name.as_str()];
        match sheet {
            SheetConfig::Skip => assert_eq!(v["skip"], true),
            SheetConfig::Student(layout) => {
                assert_eq!(v["id_column"], layout.id_column);
                assert_eq!(v["start_row"], layout.start_row);
                assert_eq!(v["end_row"], layout.end_row);
                match layout.name_column {
                    Some(c) => assert_eq!(v["name_column"], c),
                    None => assert!(v.get("name_column").is_none()),
                }
            }
        }
    }
}

#[test]
fn estimated_layouts_are_accepted() {
    let (analysis, _) =
        mosty::init("grades.xlsx".to_string(), &workbook(), &InitOptions::default()).unwrap();
    for sheet in &analysis.sheets {
        if let Some(table) = &sheet.table {
            let l = table.layout;
            let raw = mosty::config::RawSheetConfig {
                skip: false,
                id_column: Some(l.id_column),
                name_column: l.name_column,
                start_row: Some(l.start_row),
                end_row: Some(l.end_row),
            };
            assert_eq!(SheetConfig::from_raw(raw), Ok(SheetConfig::Student(l)));
        }
    }
}
