use mosty::student::{cell_text, CellValue, IdPattern, StudentId};
use mosty::Error;

fn id(text: &str) -> Option<StudentId> {
    Some(StudentId(text.to_string()))
}

/// A floating-point cell as the command reads it: integral values without a
/// fraction.
fn float(f: f64) -> CellValue {
    if f.fract() == 0.0 && f.abs() < 1e15 {
        CellValue::Float(format!("{}", f as i64))
    } else {
        CellValue::Float(f.to_string())
    }
}

#[test]
fn test_default_pattern() {
    let pattern = IdPattern::default();
    assert_eq!(pattern.extract(&float(1234001.0)), id("1234001"));
    assert_eq!(pattern.extract(&CellValue::Int(1234001)), id("1234001"));
    assert_eq!(
        pattern.extract(&CellValue::String("1234001".into())),
        id("1234001")
    );
    assert_eq!(
        pattern.extract(&CellValue::String(" 1234004\u{3000}".into())),
        id("1234004")
    );
    assert_eq!(pattern.extract(&CellValue::String("g1234001".into())), None);
    assert_eq!(pattern.extract(&float(12340010.0)), None);
    assert_eq!(pattern.extract(&CellValue::Empty), None);
}

#[test]
fn test_whole_match() {
    let pattern = IdPattern::new("[0-9]{7}").unwrap();
    assert_eq!(pattern.extract(&CellValue::String("g1234001".into())), None);
}

#[test]
fn test_named_group() {
    let pattern = IdPattern::new("^[A-Za-z]*(?<id>[0-9]{7})$").unwrap();
    assert_eq!(
        pattern.extract(&CellValue::String("g1234001".into())),
        id("1234001")
    );
    assert_eq!(pattern.extract(&float(1234001.0)), id("1234001"));
}

#[test]
fn test_invalid_pattern() {
    assert!(IdPattern::new("[0-9").is_err());
}

#[test]
fn invalid_pattern_message() {
    match IdPattern::new("[0-9") {
        Err(Error::Regex(message)) => assert!(message.contains("unclosed")),
        other => panic!("unexpected: {other:?}"),
    }
}

#[test]
fn cell_texts() {
    assert_eq!(cell_text(&CellValue::Int(-42)), Some("-42".to_string()));
    assert_eq!(cell_text(&CellValue::String("  山田 一郎 ".into())), Some("山田 一郎".to_string()));
    assert_eq!(cell_text(&CellValue::String(" \t".into())), None);
    assert_eq!(cell_text(&float(1.5)), Some("1.5".to_string()));
    assert_eq!(cell_text(&CellValue::Other), None);
    assert_eq!(cell_text(&CellValue::Empty), None);
}

#[test]
fn student_id_from_text() {
    assert_eq!(StudentId::from("1234001"), StudentId::new("1234001"));
    assert_eq!(StudentId::new("1234001").to_string(), "1234001");
}
