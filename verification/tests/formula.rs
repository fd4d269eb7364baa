use mosty::cell::CellRef;
use mosty::formula::{parse, simple_reference, Usage};

fn refs(text: &str) -> Vec<(Option<String>, String, Usage)> {
    parse(text)
        .references
        .into_iter()
        .map(|r| (r.sheet, r.range.to_string(), r.usage))
        .collect()
}

fn sheet(name: &str) -> Option<String> {
    Some(name.to_string())
}

#[test]
fn test_sheet_references() {
    assert_eq!(
        refs("=課題!E4*配点!$B$2/20"),
        vec![
            (sheet("課題"), "E4".into(), Usage::Direct),
            (sheet("配点"), "B2".into(), Usage::Direct)
        ]
    );
    assert_eq!(
        refs("'課題 (前半)'!$D$4"),
        vec![(sheet("課題 (前半)"), "D4".into(), Usage::Direct)]
    );
    assert_eq!(
        refs("'Bob''s'!A1"),
        vec![(sheet("Bob's"), "A1".into(), Usage::Direct)]
    );
    assert_eq!(
        refs("SUM(C4:D4)"),
        vec![(None, "C4:D4".into(), Usage::Direct)]
    );
    assert_eq!(
        refs("MAX(試験!C:C)"),
        vec![(sheet("試験"), "C:C".into(), Usage::Direct)]
    );
}

#[test]
fn test_usage() {
    let r = refs("VLOOKUP(A2,課題!$A$4:$E$8,5,FALSE)+課題!E4");
    assert_eq!(r[1], (sheet("課題"), "A4:E8".into(), Usage::Lookup));
    assert_eq!(r[2], (sheet("課題"), "E4".into(), Usage::Direct));
    assert_eq!(refs("OFFSET(課題!$E$4,1,0)")[0].2, Usage::Dynamic);
    assert_eq!(
        refs("_xlfn.XLOOKUP(A2,課題!A:A,課題!E:E)")[0].2,
        Usage::Lookup
    );
}

#[test]
fn test_unresolved() {
    let formula = parse(r#"INDIRECT("課題!E"&(ROW()+2))+SUM(課題合計)+[1]Sheet1!A1"#);
    assert!(formula.references.is_empty());
    assert_eq!(
        formula.unresolved,
        vec!["INDIRECT", "課題合計", "[1]Sheet1!A1"]
    );
    assert!(parse("IF(A1>0,TRUE,1.5)").unresolved.is_empty());
    assert!(parse("IFERROR(A1,#N/A)").unresolved.is_empty());
}

#[test]
fn test_simple_reference() {
    assert_eq!(
        simple_reference("=名簿!A5"),
        Some((sheet("名簿"), CellRef::new(4, 0)))
    );
    assert_eq!(simple_reference("A5"), Some((None, CellRef::new(4, 0))));
    assert_eq!(simple_reference("名簿!A5+1"), None);
    assert_eq!(simple_reference(r#"TEXT(名簿!A5,"0")"#), None);
    assert_eq!(simple_reference("名簿!A5:A6"), None);
}

#[test]
fn reference_spans() {
    let formula = parse("=SUM(課題!C2:C9)+A1");
    assert_eq!(formula.references.len(), 2);
    assert_eq!(formula.references[0].span(), (4, 12));
    assert_eq!(formula.references[1].span(), (14, 16));
}

#[test]
fn external_reference_without_bracket_is_unresolved() {
    let formula = parse("A1+[1Sheet1!B2");
    assert_eq!(formula.unresolved, vec!["[1Sheet1!B2".to_string()]);
    assert_eq!(formula.references.len(), 1);
    assert_eq!(formula.references[0].span(), (0, 2));
    assert_eq!(simple_reference("[1Sheet1!B2"), None);
}

#[test]
fn references_are_in_order_and_do_not_overlap() {
    let formula = parse("SUM(C4:D4)+課題!E4+VLOOKUP(A1,名簿!A:B,2)");
    let sheets: Vec<Option<String>> = formula.references.iter().map(|r| r.sheet.clone()).collect();
    assert_eq!(
        sheets,
        vec![None, Some("課題".to_string()), None, Some("名簿".to_string())]
    );
    for pair in formula.references.windows(2) {
        assert!(pair[0].span().1 <= pair[1].span().0);
    }
    assert!(formula.references.iter().all(|r| r.span().0 <= r.span().1));
}

#[test]
fn wrapping_in_sum_keeps_the_references() {
    for f in [
        "VLOOKUP(A2,課題!$A$4:$E$8,5,FALSE)+課題!E4",
        "OFFSET(課題!$E$4,1,0)+名簿!A1:A3",
        "'課題 (前半)'!$D$4*配点!B2+[1]Sheet1!A1",
        "IF(A1>0,\"x\",B2)+範囲名",
    ] {
        let plain = parse(f);
        let wrapped = parse(&format!("SUM({f})"));
        assert_eq!(wrapped.unresolved, plain.unresolved);
        assert_eq!(wrapped.references.len(), plain.references.len());
        for (a, b) in wrapped.references.iter().zip(plain.references.iter()) {
            assert_eq!((&a.sheet, a.range, a.usage), (&b.sheet, b.range, b.usage));
            assert_eq!(a.span(), (b.span().0 + 4, b.span().1 + 4));
        }
    }
}
