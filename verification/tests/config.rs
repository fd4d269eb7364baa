use mosty::config::{default_config_path, Config, RawSheetConfig, SheetConfig, TableLayout};
use mosty::student::DEFAULT_ID_PATTERN;

#[test]
fn test_default_config_path() {
    let path = default_config_path("dir/grades.xlsx");
    assert_eq!(path, "dir/mosty.grades.xlsx.json5");
}

fn raw(id: Option<u32>, start: Option<u32>, end: Option<u32>) -> RawSheetConfig {
    RawSheetConfig {
        skip: false,
        id_column: id,
        name_column: Some(1),
        start_row: start,
        end_row: end,
    }
}

#[test]
fn sheet_config_from_raw() {
    let layout = TableLayout {
        id_column: 0,
        name_column: Some(1),
        start_row: 1,
        end_row: 5,
    };
    assert_eq!(
        SheetConfig::from_raw(raw(Some(0), Some(1), Some(5))),
        Ok(SheetConfig::Student(layout))
    );
    let skip = RawSheetConfig {
        skip: true,
        id_column: None,
        name_column: None,
        start_row: None,
        end_row: None,
    };
    assert_eq!(SheetConfig::from_raw(skip), Ok(SheetConfig::Skip));
}

#[test]
fn sheet_config_errors() {
    assert_eq!(
        SheetConfig::from_raw(raw(Some(0), Some(1), None)),
        Err("missing field `end_row`".to_string())
    );
    assert_eq!(
        SheetConfig::from_raw(raw(None, Some(1), Some(2))),
        Err("missing field `id_column`".to_string())
    );
    assert_eq!(
        SheetConfig::from_raw(raw(Some(0), None, Some(2))),
        Err("missing field `start_row`".to_string())
    );
    assert_eq!(
        SheetConfig::from_raw(raw(Some(0), Some(3), Some(1))),
        Err("start_row (3) exceeds end_row (1)".to_string())
    );
}

#[test]
fn config_insert_get_and_student_sheets() {
    let mut config = Config::new(DEFAULT_ID_PATTERN.to_string());
    let layout = TableLayout {
        id_column: 0,
        name_column: None,
        start_row: 2,
        end_row: 9,
    };
    config.insert("配点".to_string(), SheetConfig::Skip);
    config.insert("名簿".to_string(), SheetConfig::Student(layout));
    config.insert("課題".to_string(), SheetConfig::Student(layout));
    config.insert("配点".to_string(), SheetConfig::Skip);
    assert_eq!(config.sheets().len(), 3);
    assert_eq!(config.get("名簿"), Some(SheetConfig::Student(layout)));
    assert_eq!(config.get("配点"), Some(SheetConfig::Skip));
    assert_eq!(config.get("試験"), None);
    assert!(config.contains_key("課題"));
    let names: Vec<String> = config.student_sheets().into_iter().map(|(n, _)| n).collect();
    // In the order of the names, as a BTreeMap keeps them.
    let mut sorted = vec!["名簿".to_string(), "課題".to_string()];
    sorted.sort();
    assert_eq!(names, sorted);
    assert!(layout.contains_row(2) && layout.contains_row(9));
    assert!(!layout.contains_row(1) && !layout.contains_row(10));
}

#[test]
fn errors_are_numbered() {
    let messages = vec!["a.xlsx: not found".to_string(), "b.xlsx: broken".to_string()];
    assert_eq!(
        mosty::render_group(&messages),
        "Multiple errors:\n   1.  a.xlsx: not found\n   2.  b.xlsx: broken"
    );
    let many: Vec<String> = (0..1000).map(|i| i.to_string()).collect();
    assert!(mosty::render_group(&many).ends_with("\n 1000.  999"));
}

#[test]
fn student_sheets_are_ascending_without_skipped_sheets() {
    let mut config = Config::new(DEFAULT_ID_PATTERN.to_string());
    let layout = TableLayout {
        id_column: 1,
        name_column: Some(2),
        start_row: 1,
        end_row: 4,
    };
    for name in ["c", "a", "d", "b"] {
        config.insert(name.to_string(), SheetConfig::Student(layout));
    }
    config.insert("b".to_string(), SheetConfig::Skip);
    let sheets = config.student_sheets();
    let names: Vec<&str> = sheets.iter().map(|(n, _)| n.as_str()).collect();
    assert_eq!(names, vec!["a", "c", "d"]);
    assert!(sheets.iter().all(|(_, l)| *l == layout));
}
