use mosty::cell::{column_name, CellRange, CellRef, MAX_ROW};

#[test]
fn test_parse_cell() {
    assert_eq!(CellRef::parse("A1"), Some(CellRef::new(0, 0)));
    assert_eq!(CellRef::parse("C6"), Some(CellRef::new(5, 2)));
    assert_eq!(CellRef::parse("$AA$10"), Some(CellRef::new(9, 26)));
    assert_eq!(CellRef::parse("A0"), None);
    assert_eq!(CellRef::parse("ABCD1"), None);
    assert_eq!(CellRef::parse("課題合計"), None);
}

#[test]
fn test_parse_range() {
    let range = CellRange::parse("C2:C100").unwrap();
    assert_eq!(range.rows(), 1..=99);
    assert!(!range.is_single_row());
    assert!(CellRange::parse("C6:F6").unwrap().is_single_row());
    assert_eq!(CellRange::parse("C:C").unwrap().rows(), 0..=MAX_ROW);
    assert_eq!(CellRange::parse("2:5").unwrap().rows(), 1..=4);
    assert_eq!(CellRange::parse("20"), None);
    assert_eq!(CellRange::parse("C"), None);
}

#[test]
fn test_display() {
    assert_eq!(CellRef::new(5, 2).to_string(), "C6");
    assert_eq!(CellRef::new(9, 26).to_string(), "AA10");
    assert_eq!(CellRange::parse("C2:C100").unwrap().to_string(), "C2:C100");
    assert_eq!(CellRange::parse("$C:$C").unwrap().to_string(), "C:C");
    assert_eq!(CellRange::parse("2:5").unwrap().to_string(), "2:5");
}

#[test]
fn column_names_of_indices() {
    assert_eq!(column_name(0), "A");
    assert_eq!(column_name(25), "Z");
    assert_eq!(column_name(26), "AA");
    assert_eq!(column_name(16_383), "XFD");
}

#[test]
fn cell_round_trip() {
    for (row, col) in [(0, 0), (5, 2), (9, 26), (1_048_575, 16_383), (41, 701)] {
        let cell = CellRef::new(row, col);
        assert_eq!(CellRef::parse(&cell.to_string()), Some(cell));
    }
}

#[test]
fn range_normalized_and_round_trip() {
    let range = CellRange::parse("F6:C2").unwrap();
    assert_eq!(range.start, CellRef::new(1, 2));
    assert_eq!(range.end, CellRef::new(5, 5));
    assert_eq!(range.to_string(), "C2:F6");
    assert_eq!(CellRange::parse(&range.to_string()), Some(range));
    let single = CellRange::single(CellRef::new(3, 1));
    assert_eq!(single.to_string(), "B4");
    assert!(single.is_single_row());
}

#[test]
fn invalid_addresses() {
    assert_eq!(CellRef::parse(""), None);
    assert_eq!(CellRef::parse("XFE1"), None);
    assert_eq!(CellRef::parse("A1048577"), None);
    assert_eq!(CellRange::parse("A1:"), None);
}

#[test]
fn absolute_address_reads_back() {
    let cell = CellRef::new(5, 2);
    assert_eq!(CellRef::parse("$C$6"), Some(cell));
    assert_eq!(CellRef::parse(&cell.to_string()), Some(cell));
    let last = CellRef::new(1048575, 16383);
    assert_eq!(CellRef::parse("$XFD$1048576"), Some(last));
}
