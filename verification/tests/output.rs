use mosty::cell::CellRef;
use mosty::output::markdown::escape;
use mosty::output::{render, Format};
use mosty::problem::{Location, Problem, Report, Summary};
use mosty::student::StudentId;

fn location(sheet: &str, cell: &str, id: &str, name: &str) -> Location {
    Location {
        sheet: sheet.to_string(),
        cell: CellRef::parse(cell).unwrap(),
        id: StudentId::new(id),
        name: Some(name.to_string()),
    }
}

fn sample_report() -> Report {
    Report {
        file: "grades.xlsx".to_string(),
        summary: Summary {
            sheets: 5,
            references: 1234,
            problems: 2,
        },
        problems: vec![
            Problem::IdMismatch {
                source: location("最終成績", "D5", "1234004", "山田"),
                target: location("課題", "C6", "1234005", "佐藤"),
            },
            Problem::DuplicatedId {
                sheet: "課題".to_string(),
                id: StudentId::new("1234010"),
                cells: vec![CellRef::parse("A12").unwrap(), CellRef::parse("A13").unwrap()],
            },
        ],
    }
}

#[test]
fn markdown_test_render() {
    let text = render(&[sample_report()], Format::Markdown).unwrap();
    let expected = "## grades.xlsx\n\n\
        | Kind | Source | Target | Description |\n\
        |---|---|---|---|\n\
        | id_mismatch | 最終成績!D5 (1234004 山田) | 課題!C6 (1234005 佐藤) | student id mismatch |\n\
        | duplicated_id | 課題!A12, 課題!A13 |  | duplicated student id 1234010 |\n\
        \n\
        2 problems (5 sheets, 1234 references checked)\n";
    assert_eq!(text, expected);
}

#[test]
fn test_render_without_problems() {
    let mut report = sample_report();
    report.problems.clear();
    report.summary.problems = 0;
    assert_eq!(
        render(&[report], Format::Markdown).unwrap(),
        "## grades.xlsx\n\n0 problems (5 sheets, 1234 references checked)\n"
    );
}

#[test]
fn test_escape() {
    assert_eq!(escape("a|b"), "a\\|b");
}

#[test]
fn escape_turns_line_breaks_into_spaces() {
    assert_eq!(escape("山田\n太郎|x"), "山田 太郎\\|x");
}

#[test]
fn markdown_cells_are_escaped() {
    let mut report = sample_report();
    report.problems.truncate(1);
    report.summary.problems = 1;
    if let Problem::IdMismatch { source, .. } = &mut report.problems[0] {
        source.name = Some("山田\n花|子".to_string());
    }
    let text = render(&[report], Format::Markdown).unwrap();
    assert!(text.contains("| id_mismatch | 最終成績!D5 (1234004 山田 花\\|子) | 課題!C6"));
}

#[test]
fn plain_test_render() {
    let text = render(&[sample_report()], Format::Default).unwrap();
    let expected = "grades.xlsx\n\
        \x20 最終成績!D5 (1234004 山田) -> 課題!C6 (1234005 佐藤): student id mismatch\n\
        \x20 課題: duplicated student id 1234010 at 課題!A12, 課題!A13\n\
        \x20 2 problems (5 sheets, 1234 references checked)\n";
    assert_eq!(text, expected);
}

#[test]
fn json_is_left_to_the_command() {
    assert_eq!(render(&[sample_report()], Format::Json), None);
}

#[test]
fn one_problem_is_singular() {
    let mut report = sample_report();
    report.problems.truncate(1);
    report.summary.problems = 1;
    let text = render(&[report], Format::Default).unwrap();
    assert!(text.ends_with("  1 problem (5 sheets, 1234 references checked)\n"));
}

#[test]
fn markdown_reports_are_separated() {
    let mut empty = sample_report();
    empty.problems.clear();
    empty.summary.problems = 0;
    empty.file = "b|c.xlsx".to_string();
    let text = render(&[sample_report(), empty], Format::Markdown).unwrap();
    assert!(text.contains("references checked)\n\n## b|c.xlsx\n\n0 problems"));
}

#[test]
fn problem_texts() {
    let report = sample_report();
    assert_eq!(
        report.problems[0].to_string(),
        "最終成績!D5 (1234004 山田) -> 課題!C6 (1234005 佐藤): student id mismatch"
    );
    assert_eq!(report.problems[1].subject(), "課題");
    assert_eq!(report.problems[0].kind(), "id_mismatch");
    assert_eq!(report.problems[1].kind(), "duplicated_id");
    let outside = Problem::IdOutsideTable {
        sheet: "名簿".to_string(),
        cell: CellRef::new(6, 0),
        id: StudentId::new("1234006"),
    };
    assert_eq!(
        outside.to_string(),
        "名簿!A7: student id 1234006 is outside the student table"
    );
    assert_eq!(
        Problem::UnknownSheet { sheet: "小テスト".to_string() }.to_string(),
        "小テスト: sheet is not in the config file (run `mosty init` again)"
    );
    assert_eq!(
        Problem::MissingSheet { sheet: "旧課題".to_string() }.to_string(),
        "旧課題: sheet is not in the workbook"
    );
    assert!(report.has_problems());
}

#[test]
fn dash_means_stdout() {
    assert!(mosty::output::is_stdout("-"));
    assert!(!mosty::output::is_stdout("--"));
    assert!(!mosty::output::is_stdout("result.json"));
}

#[test]
fn rendering_lists_of_reports_concatenates() {
    let other = || {
        let mut r = sample_report();
        r.file = "b.xlsx".to_string();
        r
    };
    let both = [sample_report(), other()];
    let one = render(&[sample_report()], Format::Default).unwrap();
    let two = render(&[other()], Format::Default).unwrap();
    assert_eq!(render(&both, Format::Default).unwrap(), one.clone() + &two);
    assert!(one.starts_with("grades.xlsx"));
    let m1 = render(&[sample_report()], Format::Markdown).unwrap();
    let m2 = render(&[other()], Format::Markdown).unwrap();
    assert_eq!(render(&both, Format::Markdown).unwrap(), m1 + "\n" + &m2);
    assert_eq!(render(&[], Format::Default).unwrap(), "");
    assert_eq!(render(&[], Format::Markdown).unwrap(), "");
}
