//! Cell positions and ranges.
//!
//! All row and column indices are 0-origin. The A1 style addresses (e.g., `C6`)
//! are used only for parsing formulas and displaying cells to users.
use vstd::prelude::*;
use crate::text::{append, chars_of, decimal, digit_char, decimal_chars, is_ascii_alpha, is_digit, slice_chars, string_of};

verus! {

/// The last row index of an Excel worksheet (0-origin).
pub const MAX_ROW: u32 = 1_048_575;

/// The last column index of an Excel worksheet (0-origin, `XFD`).
pub const MAX_COL: u32 = 16_383;

/// A cell position in a worksheet. Both indices are 0-origin.
#[derive(Debug, Clone, Copy, PartialEq, Eq, Structural, Hash, PartialOrd, Ord)]
pub struct CellRef {
    /// The row index (0 is Excel row 1).
    pub row: u32,
    /// The column index (0 is column `A`).
    pub col: u32,
}

/// A rectangular range of cells. Both ends are inclusive.
#[derive(Debug, Clone, Copy, PartialEq, Eq, Structural)]
pub struct CellRange {
    /// The top-left cell.
    pub start: CellRef,
    /// The bottom-right cell.
    pub end: CellRef,
}

// ---------------------------------------------------------------------------
// The model of A1 style addresses.

/// The value of a column letter (`A` and `a` are 1, `Z` and `z` are 26).
pub open spec fn letter_value(c: char) -> int {
    if 'a' <= c && c <= 'z' {
        c as int - 96
    } else {
        c as int - 64
    }
}

/// The bijective base-26 value of column letters (`A` is 1, `AA` is 27).
pub open spec fn letters_value(s: Seq<char>) -> int
    decreases s.len(),
{
    if s.len() == 0 {
        0
    } else {
        letters_value(s.drop_last()) * 26 + letter_value(s.last())
    }
}

/// The column letters of the bijective base-26 number `n` (`1` is `A`).
pub open spec fn letters_of(n: nat) -> Seq<char>
    decreases n,
{
    if n == 0 {
        Seq::empty()
    } else {
        letters_of(((n - 1) / 26) as nat).push(((65 + (n - 1) % 26) as int) as char)
    }
}

/// The value of a decimal digit string.
pub open spec fn digits_value(s: Seq<char>) -> int
    decreases s.len(),
{
    if s.len() == 0 {
        0
    } else {
        digits_value(s.drop_last()) * 10 + (s.last() as int - 48)
    }
}

pub open spec fn all_digits(s: Seq<char>) -> bool {
    forall|i: int| 0 <= i < s.len() ==> is_digit(#[trigger] s[i])
}

pub open spec fn all_alpha(s: Seq<char>) -> bool {
    forall|i: int| 0 <= i < s.len() ==> is_ascii_alpha(#[trigger] s[i])
}

/// The text without `$`.
pub open spec fn strip_dollars(s: Seq<char>) -> Seq<char>
    decreases s.len(),
{
    if s.len() == 0 {
        s
    } else if s.last() == '$' {
        strip_dollars(s.drop_last())
    } else {
        strip_dollars(s.drop_last()).push(s.last())
    }
}

/// The number of ASCII letters at the beginning of `s[i..]`, counted from `i`.
pub open spec fn alpha_end(s: Seq<char>, i: int) -> int
    decreases s.len() - i,
{
    if 0 <= i < s.len() && is_ascii_alpha(s[i]) {
        alpha_end(s, i + 1)
    } else {
        i
    }
}

/// The column index of column letters, if it is a column of a worksheet.
pub open spec fn column_index_of(letters: Seq<char>) -> Option<u32> {
    if letters.len() > 3 {
        None
    } else if 0 <= letters_value(letters) - 1 <= MAX_COL {
        Some((letters_value(letters) - 1) as u32)
    } else {
        None
    }
}

/// The row index of a 1-origin row number, if it is a row of a worksheet.
pub open spec fn row_index_of(digits: Seq<char>) -> Option<u32> {
    if all_digits(digits) && digits.len() > 0 && 1 <= digits_value(digits) <= MAX_ROW + 1 {
        Some((digits_value(digits) - 1) as u32)
    } else {
        None
    }
}

/// The letters and the rest of a part of an address, without `$`.
pub open spec fn split_part(text: Seq<char>) -> (Seq<char>, Seq<char>) {
    let t = strip_dollars(text);
    let k = alpha_end(t, 0);
    (t.take(k), t.skip(k))
}

/// The cell of an address such as `C6` or `$C$6`.
pub open spec fn part_cell(text: Seq<char>) -> Option<CellRef> {
    let (letters, digits) = split_part(text);
    if letters.len() > 0 && digits.len() > 0 {
        match (row_index_of(digits), column_index_of(letters)) {
            (Some(row), Some(col)) => Some(CellRef { row, col }),
            _ => None,
        }
    } else {
        None
    }
}

/// The column of a whole-column part such as `C` in `C:C`.
pub open spec fn part_column(text: Seq<char>) -> Option<u32> {
    let (letters, digits) = split_part(text);
    if letters.len() > 0 && digits.len() == 0 {
        column_index_of(letters)
    } else {
        None
    }
}

/// The row of a whole-row part such as `2` in `2:5`.
pub open spec fn part_row(text: Seq<char>) -> Option<u32> {
    let (letters, digits) = split_part(text);
    if letters.len() == 0 && digits.len() > 0 {
        row_index_of(digits)
    } else {
        None
    }
}

/// The index of the first `:` in `s[i..]`, or the length.
pub open spec fn colon_at(s: Seq<char>, i: int) -> int
    decreases s.len() - i,
{
    if 0 <= i < s.len() && s[i] != ':' {
        colon_at(s, i + 1)
    } else {
        i
    }
}

/// The range of the two corners in any order.
pub open spec fn corners(a: CellRef, b: CellRef) -> CellRange {
    CellRange {
        start: CellRef { row: min_u32(a.row, b.row), col: min_u32(a.col, b.col) },
        end: CellRef { row: max_u32(a.row, b.row), col: max_u32(a.col, b.col) },
    }
}

pub open spec fn min_u32(a: u32, b: u32) -> u32 {
    if a <= b { a } else { b }
}

pub open spec fn max_u32(a: u32, b: u32) -> u32 {
    if a >= b { a } else { b }
}

/// The range that an A1 style range text denotes: `A1`, `A1:B2`, `C:C`, or `2:5`.
pub open spec fn range_of(text: Seq<char>) -> Option<CellRange> {
    let k = colon_at(text, 0);
    if k == text.len() {
        match part_cell(text) {
            Some(c) => Some(CellRange { start: c, end: c }),
            None => None,
        }
    } else {
        let (first, second) = (text.take(k), text.skip(k + 1));
        match (part_cell(first), part_cell(second)) {
            (Some(a), Some(b)) => Some(corners(a, b)),
            _ => match (part_column(first), part_column(second)) {
                (Some(a), Some(b)) => Some(
                    corners(CellRef { row: 0, col: a }, CellRef { row: MAX_ROW, col: b }),
                ),
                _ => match (part_row(first), part_row(second)) {
                    (Some(a), Some(b)) => Some(
                        corners(CellRef { row: a, col: 0 }, CellRef { row: b, col: MAX_COL }),
                    ),
                    _ => None,
                },
            },
        }
    }
}

/// The column name of a 0-origin column index (`0` is `A`).
pub open spec fn column_name_of(col: nat) -> Seq<char> {
    letters_of(col + 1)
}

impl CellRef {
    /// The A1 style address of the cell (e.g., `C6`).
    pub open spec fn a1(self) -> Seq<char> {
        column_name_of(self.col as nat) + decimal((self.row + 1) as nat)
    }

    /// The cell is in a worksheet.
    pub open spec fn in_sheet(self) -> bool {
        self.row <= MAX_ROW && self.col <= MAX_COL
    }
}

impl CellRange {
    /// The A1 style text of the range: whole columns as `C:C`, whole rows as `2:5`,
    /// a single cell as `C6`, and others as `C2:C100`.
    pub open spec fn a1(self) -> Seq<char> {
        let (s, e) = (self.start, self.end);
        if s.row == 0 && e.row == MAX_ROW {
            column_name_of(s.col as nat) + seq![':'] + column_name_of(e.col as nat)
        } else if s.col == 0 && e.col == MAX_COL {
            decimal((s.row + 1) as nat) + seq![':'] + decimal((e.row + 1) as nat)
        } else if s == e {
            s.a1()
        } else {
            s.a1() + seq![':'] + e.a1()
        }
    }

    /// The corners are ordered, and both are in a worksheet.
    pub open spec fn normalized(self) -> bool {
        &&& self.start.row <= self.end.row
        &&& self.start.col <= self.end.col
        &&& self.start.in_sheet()
        &&& self.end.in_sheet()
    }
}

// ---------------------------------------------------------------------------
// Parsing.

/// One side of an A1 style range.
enum Part {
    /// A cell (e.g., `C6`).
    Cell(CellRef),
    /// A whole column (e.g., `C` in `C:C`).
    Column(u32),
    /// A whole row (e.g., `2` in `2:5`).
    Row(u32),
}

fn is_alpha(c: char) -> (r: bool)
    ensures
        r == is_ascii_alpha(c),
{
    ('A' <= c && c <= 'Z') || ('a' <= c && c <= 'z')
}

/// Removes `$` from the text.
fn without_dollars(text: &[char]) -> (r: Vec<char>)
    ensures
        r@ == strip_dollars(text@),
{
    let mut r: Vec<char> = Vec::new();
    let mut i: usize = 0;
    while i < text.len()
        invariant
            i <= text.len(),
            r@ == strip_dollars(text@.take(i as int)),
        decreases text.len() - i,
    {
        assert(text@.take(i + 1).drop_last() =~= text@.take(i as int));
        if text[i] != '$' {
            r.push(text[i]);
        }
        i += 1;
    }
    assert(text@.take(text.len() as int) =~= text@);
    r
}

impl Part {
    /// Parses a cell, a column, or a row. `$` is ignored.
    fn parse(text: &[char]) -> (r: Option<Self>)
        ensures
            match r {
                Some(Part::Cell(c)) => part_cell(text@) == Some(c),
                Some(Part::Column(c)) => part_column(text@) == Some(c) && part_cell(text@) is None,
                Some(Part::Row(row)) => part_row(text@) == Some(row) && part_cell(text@) is None
                    && part_column(text@) is None,
                None => part_cell(text@) is None && part_column(text@) is None && part_row(
                    text@,
                ) is None,
            },
    {
        let t = without_dollars(text);
        let mut k: usize = 0;
        while k < t.len() && is_alpha(t[k])
            invariant
                k <= t.len(),
                alpha_end(t@, k as int) == alpha_end(t@, 0),
            decreases t.len() - k,
        {
            k += 1;
        }
        let letters = slice_chars(&t, 0, k);
        let digits = slice_chars(&t, k, t.len());
        assert(letters@ == t@.take(k as int));
        assert(digits@ == t@.skip(k as int));
        proof {
            lemma_alpha_end(t@, 0);
        }
        if letters.len() > 0 && digits.len() > 0 {
            let row = row_index(&digits)?;
            let col = column_index(&letters)?;
            Some(Part::Cell(CellRef { row, col }))
        } else if letters.len() > 0 {
            match column_index(&letters) {
                Some(c) => Some(Part::Column(c)),
                None => None,
            }
        } else if digits.len() > 0 {
            match row_index(&digits) {
                Some(r) => Some(Part::Row(r)),
                None => None,
            }
        } else {
            None
        }
    }
}

proof fn lemma_alpha_end(s: Seq<char>, i: int)
    requires
        0 <= i <= s.len(),
    ensures
        i <= alpha_end(s, i) <= s.len(),
        forall|k: int| i <= k < alpha_end(s, i) ==> is_ascii_alpha(#[trigger] s[k]),
        alpha_end(s, i) < s.len() ==> !is_ascii_alpha(s[alpha_end(s, i)]),
    decreases s.len() - i,
{
    if i < s.len() && is_ascii_alpha(s[i]) {
        lemma_alpha_end(s, i + 1);
    }
}

/// Converts column letters (`A`, `AA`, ...) into a 0-origin index.
fn column_index(letters: &[char]) -> (r: Option<u32>)
    requires
        letters.len() > 0,
        all_alpha(letters@),
    ensures
        r == column_index_of(letters@),
{
    if letters.len() > 3 {
        return None;
    }
    let mut index: u32 = 0;
    let mut i: usize = 0;
    while i < letters.len()
        invariant
            i <= letters.len() <= 3,
            all_alpha(letters@),
            index == letters_value(letters@.take(i as int)),
            0 <= index < pow27(i as nat),
            i > 0 ==> index >= 1,
        decreases letters.len() - i,
    {
        let c = letters[i];
        assert(is_ascii_alpha(letters@[i as int]));
        let v = letter(c);
        proof {
            let t = letters@.take(i + 1);
            assert(t.drop_last() =~= letters@.take(i as int));
            assert(t.last() == c);
            lemma_pow27_step(i as nat, index as int, v as int);
            reveal_with_fuel(pow27, 4);
            assert(pow27(3) == 19683);
            lemma_pow27_mono(i as nat + 1, 3);
        }
        index = index * 26 + v;
        i += 1;
    }
    assert(letters@.take(letters.len() as int) =~= letters@);
    if index - 1 <= MAX_COL {
        Some(index - 1)
    } else {
        None
    }
}

fn letter(c: char) -> (v: u32)
    requires
        is_ascii_alpha(c),
    ensures
        v == letter_value(c),
        1 <= v <= 26,
{
    if 'a' <= c && c <= 'z' {
        (c as u32) - 96
    } else {
        (c as u32) - 64
    }
}

pub open spec fn pow27(n: nat) -> int
    decreases n,
{
    if n == 0 { 1 } else { 27 * pow27((n - 1) as nat) }
}

proof fn lemma_pow27_mono(a: nat, b: nat)
    requires
        a <= b,
    ensures
        1 <= pow27(a) <= pow27(b),
    decreases b,
{
    if a < b {
        lemma_pow27_mono(a, (b - 1) as nat);
    } else if a > 0 {
        lemma_pow27_mono((a - 1) as nat, (b - 1) as nat);
    }
}

proof fn lemma_pow27_step(i: nat, index: int, v: int)
    requires
        0 <= index < pow27(i),
        1 <= v <= 26,
    ensures
        0 < index * 26 + v < pow27(i + 1),
{
    assert(pow27(i + 1) == 27 * pow27(i));
    assert(index * 26 + v <= (pow27(i) - 1) * 26 + 26) by (nonlinear_arith)
        requires
            index <= pow27(i) - 1,
            v <= 26,
    ;
    assert((pow27(i) - 1) * 26 + 26 < 27 * pow27(i)) by (nonlinear_arith)
        requires
            pow27(i) >= 1,
    ;
}

/// Converts a 1-origin row number into a 0-origin index.
fn row_index(digits: &[char]) -> (r: Option<u32>)
    requires
        digits.len() > 0,
    ensures
        r == row_index_of(digits@),
{
    let cap: u64 = 2_000_000;
    let mut value: u64 = 0;
    let mut i: usize = 0;
    while i < digits.len()
        invariant
            i <= digits.len(),
            all_digits(digits@.take(i as int)),
            value == if digits_value(digits@.take(i as int)) < cap {
                digits_value(digits@.take(i as int))
            } else {
                cap as int
            },
            digits_value(digits@.take(i as int)) >= 0,
            cap == 2_000_000,
        decreases digits.len() - i,
    {
        let c = digits[i];
        if !('0' <= c && c <= '9') {
            assert(!all_digits(digits@)) by {
                assert(!is_digit(digits@[i as int]));
            }
            return None;
        }
        assert(digits@.take(i + 1).drop_last() =~= digits@.take(i as int));
        assert(digits@.take(i + 1).last() == c);
        let d = (c as u64) - 48;
        let next = value * 10 + d;
        value = if next < cap { next } else { cap };
        i += 1;
        assert(all_digits(digits@.take(i as int))) by {
            assert forall|k: int| 0 <= k < i implies is_digit(#[trigger] digits@.take(i as int)[k]) by {
                if k < i - 1 {
                    assert(digits@.take(i as int)[k] == digits@.take(i - 1)[k]);
                }
            }
        }
    }
    assert(digits@.take(digits.len() as int) =~= digits@);
    if 1 <= value && value <= (MAX_ROW as u64) + 1 {
        Some((value - 1) as u32)
    } else {
        None
    }
}

impl CellRef {
    /// Creates a cell position from 0-origin indices.
    pub fn new(row: u32, col: u32) -> (r: Self)
        ensures
            r == (CellRef { row, col }),
    {
        Self { row, col }
    }

    /// Parses an A1 style address such as `C6` or `$C$6`.
    /// Returns `None` if the text is not a cell address.
    pub fn parse(text: &str) -> (r: Option<Self>)
        ensures
            r == part_cell(text@),
    {
        let chars = chars_of(text);
        Self::parse_chars(&chars)
    }

    /// Parses the characters of an A1 style address.
    pub fn parse_chars(text: &[char]) -> (r: Option<Self>)
        ensures
            r == part_cell(text@),
    {
        match Part::parse(text) {
            Some(Part::Cell(cell)) => Some(cell),
            _ => None,
        }
    }

    /// The A1 style address of the cell (e.g., `C6`).
    pub fn to_chars(&self) -> (r: Vec<char>)
        ensures
            r@ == self.a1(),
    {
        let mut r = letters_chars(self.col as u64 + 1);
        let d = decimal_chars(self.row as u64 + 1);
        append(&mut r, &d);
        r
    }

    /// The A1 style address of the cell (e.g., `C6`).
    pub fn to_string(&self) -> (r: String)
        ensures
            r@ == self.a1(),
    {
        string_of(&self.to_chars())
    }
}

/// The column name of a 0-origin column index, for every index.
pub fn column_chars(col: u32) -> (r: Vec<char>)
    ensures
        r@ == column_name_of(col as nat),
{
    letters_chars(col as u64 + 1)
}

/// The column letters of the bijective base-26 number `n`.
fn letters_chars(n: u64) -> (r: Vec<char>)
    ensures
        r@ == letters_of(n as nat),
    decreases n,
{
    if n == 0 {
        Vec::new()
    } else {
        let mut v = letters_chars((n - 1) / 26);
        let r = ((n - 1) % 26) as u8;
        v.push((65u8 + r) as char);
        v
    }
}

/// Converts a 0-origin column index into a column name.
pub fn column_name(col: u32) -> (r: String)
    requires
        col < u32::MAX,
    ensures
        r@ == column_name_of(col as nat),
{
    string_of(&column_chars(col))
}

impl CellRange {
    /// Creates a range of a single cell.
    pub fn single(cell: CellRef) -> (r: Self)
        ensures
            r == (CellRange { start: cell, end: cell }),
    {
        Self { start: cell, end: cell }
    }

    /// Creates the range of the two corners in any order.
    fn new(a: CellRef, b: CellRef) -> (r: Self)
        ensures
            r == corners(a, b),
    {
        let start = CellRef::new(
            if a.row <= b.row { a.row } else { b.row },
            if a.col <= b.col { a.col } else { b.col },
        );
        let end = CellRef::new(
            if a.row >= b.row { a.row } else { b.row },
            if a.col >= b.col { a.col } else { b.col },
        );
        Self { start, end }
    }

    /// Parses `A1`, `A1:B2`, `C:C` (whole columns), or `2:5` (whole rows).
    /// Returns `None` if the text is not a range.
    pub fn parse(text: &str) -> (r: Option<Self>)
        ensures
            r == range_of(text@),
    {
        let chars = chars_of(text);
        Self::parse_chars(&chars)
    }

    /// Parses the characters of a range text.
    pub fn parse_chars(text: &[char]) -> (r: Option<Self>)
        ensures
            r == range_of(text@),
    {
        let mut k: usize = 0;
        while k < text.len() && text[k] != ':'
            invariant
                k <= text.len(),
                colon_at(text@, k as int) == colon_at(text@, 0),
            decreases text.len() - k,
        {
            k += 1;
        }
        if k == text.len() {
            return match CellRef::parse_chars(text) {
                Some(c) => Some(Self::single(c)),
                None => None,
            };
        }
        let first = slice_chars(text, 0, k);
        let second = slice_chars(text, k + 1, text.len());
        assert(first@ =~= text@.take(k as int));
        assert(second@ =~= text@.skip(k + 1));
        let a = Part::parse(&first)?;
        let b = Part::parse(&second)?;
        match (a, b) {
            (Part::Cell(a), Part::Cell(b)) => Some(Self::new(a, b)),
            (Part::Column(a), Part::Column(b)) => Some(
                Self::new(CellRef::new(0, a), CellRef::new(MAX_ROW, b)),
            ),
            (Part::Row(a), Part::Row(b)) => Some(
                Self::new(CellRef::new(a, 0), CellRef::new(b, MAX_COL)),
            ),
            _ => None,
        }
    }

    /// Returns true if the range is in a single row (e.g., `C6:F6`).
    pub fn is_single_row(&self) -> (r: bool)
        ensures
            r == (self.start.row == self.end.row),
    {
        self.start.row == self.end.row
    }

    /// Returns the row indices of the range.
    pub fn rows(&self) -> (r: core::ops::RangeInclusive<u32>)
        ensures
            r@.start == self.start.row,
            r@.end == self.end.row,
            !r@.exhausted,
    {
        core::ops::RangeInclusive::new(self.start.row, self.end.row)
    }

    /// The text of the range (e.g., `C2:C100`, `C:C`, `2:5`).
    pub fn to_chars(&self) -> (r: Vec<char>)
        ensures
            r@ == self.a1(),
    {
        let (s, e) = (self.start, self.end);
        if s.row == 0 && e.row == MAX_ROW {
            let mut r = letters_chars(s.col as u64 + 1);
            r.push(':');
            append(&mut r, &letters_chars(e.col as u64 + 1));
            r
        } else if s.col == 0 && e.col == MAX_COL {
            let mut r = decimal_chars(s.row as u64 + 1);
            r.push(':');
            append(&mut r, &decimal_chars(e.row as u64 + 1));
            r
        } else if s == e {
            s.to_chars()
        } else {
            let mut r = s.to_chars();
            r.push(':');
            append(&mut r, &e.to_chars());
            r
        }
    }

    /// The text of the range (e.g., `C2:C100`, `C:C`, `2:5`).
    pub fn to_string(&self) -> (r: String)
        ensures
            r@ == self.a1(),
    {
        string_of(&self.to_chars())
    }
}

// ---------------------------------------------------------------------------
// Laws of addresses.

proof fn lemma_letters_of(n: nat)
    ensures
        all_alpha(letters_of(n)),
        forall|i: int| 0 <= i < letters_of(n).len() ==> 'A' <= #[trigger] letters_of(n)[i] <= 'Z',
        letters_value(letters_of(n)) == n,
        n >= 1 ==> letters_of(n).len() >= 1,
        n <= 26 ==> letters_of(n).len() <= 1,
        n <= 702 ==> letters_of(n).len() <= 2,
        n <= 18278 ==> letters_of(n).len() <= 3,
    decreases n,
{
    if n > 0 {
        let q = ((n - 1) / 26) as nat;
        let r = (n - 1) % 26;
        lemma_letters_of(q);
        let l = letters_of(q);
        let ch = ((65 + r) as int) as char;
        assert(letters_of(n) == l.push(ch));
        assert(l.push(ch).drop_last() =~= l);
        assert(letter_value(ch) == r + 1);
        assert(n - 1 == q * 26 + r);
        assert forall|i: int| 0 <= i < letters_of(n).len() implies 'A' <= #[trigger] letters_of(
            n,
        )[i] <= 'Z' by {
            if i < l.len() {
                assert(letters_of(n)[i] == l[i]);
            }
        }
    }
}

proof fn lemma_decimal(n: nat)
    ensures
        all_digits(decimal(n)),
        decimal(n).len() >= 1,
        digits_value(decimal(n)) == n,
        forall|i: int| 0 <= i < decimal(n).len() ==> #[trigger] decimal(n)[i] != ':' && decimal(
            n,
        )[i] != '$' && !is_ascii_alpha(decimal(n)[i]),
    decreases n,
{
    let c = digit_char(n % 10);
    assert(c as int == 48 + n % 10);
    if n < 10 {
        assert(n % 10 == n);
        assert(decimal(n) == seq![c]);
        assert(decimal(n).drop_last() =~= Seq::<char>::empty());
        assert(decimal(n).last() == c);
        assert(digits_value(decimal(n)) == digits_value(Seq::<char>::empty()) * 10 + (c as int - 48));
    } else {
        lemma_decimal(n / 10);
        let d = decimal(n / 10);
        assert(decimal(n) == d.push(c));
        assert(decimal(n).drop_last() =~= d);
        assert(decimal(n).last() == c);
        assert(digits_value(decimal(n)) == digits_value(d) * 10 + (c as int - 48));
        assert((n / 10) * 10 + n % 10 == n);
        assert forall|i: int| 0 <= i < decimal(n).len() implies is_digit(#[trigger] decimal(n)[i])
            && decimal(n)[i] != ':' && decimal(n)[i] != '$' && !is_ascii_alpha(decimal(n)[i]) by {
            if i < d.len() {
                assert(decimal(n)[i] == d[i]);
            }
        }
    }
}

/// A text without `$` is kept by `strip_dollars`.
proof fn lemma_strip_no_dollars(s: Seq<char>)
    requires
        forall|i: int| 0 <= i < s.len() ==> #[trigger] s[i] != '$',
    ensures
        strip_dollars(s) == s,
    decreases s.len(),
{
    if s.len() > 0 {
        lemma_strip_no_dollars(s.drop_last());
        assert(s.drop_last().push(s.last()) =~= s);
    }
}

/// In `a + b`, where `a` is letters and `b` starts with a non-letter, the letters end at `a.len()`.
proof fn lemma_alpha_end_concat(a: Seq<char>, b: Seq<char>, i: int)
    requires
        0 <= i <= a.len(),
        all_alpha(a),
        b.len() > 0 ==> !is_ascii_alpha(b[0]),
    ensures
        alpha_end(a + b, i) == a.len(),
    decreases a.len() - i,
{
    if i < a.len() {
        assert((a + b)[i] == a[i]);
        lemma_alpha_end_concat(a, b, i + 1);
    } else if b.len() > 0 {
        assert((a + b)[i] == b[0]);
    }
}

/// In `a + b`, where `a` has no `:` and `b` starts with `:`, the first `:` is at `a.len()`.
proof fn lemma_colon_at_concat(a: Seq<char>, b: Seq<char>, i: int)
    requires
        0 <= i <= a.len(),
        forall|k: int| 0 <= k < a.len() ==> #[trigger] a[k] != ':',
        b.len() > 0 ==> b[0] == ':',
    ensures
        colon_at(a + b, i) == a.len(),
    decreases a.len() - i,
{
    if i < a.len() {
        assert((a + b)[i] == a[i]);
        lemma_colon_at_concat(a, b, i + 1);
    } else if b.len() > 0 {
        assert((a + b)[i] == b[0]);
    }
}

/// The column name of a column is read back as the column.
pub proof fn lemma_column_name_roundtrip(col: u32)
    requires
        col <= MAX_COL,
    ensures
        column_name_of(col as nat).len() >= 1,
        all_alpha(column_name_of(col as nat)),
        column_index_of(column_name_of(col as nat)) == Some(col),
{
    lemma_letters_of(col as nat + 1);
}

proof fn lemma_column_name_chars(col: u32)
    requires
        col <= MAX_COL,
    ensures
        forall|i: int| 0 <= i < column_name_of(col as nat).len() ==> #[trigger] column_name_of(
            col as nat,
        )[i] != ':' && column_name_of(col as nat)[i] != '$',
        1 <= column_name_of(col as nat).len() <= 3,
{
    lemma_letters_of(col as nat + 1);
}

/// The decimal row number of a row is read back as the row.
pub proof fn lemma_row_number_roundtrip(row: u32)
    requires
        row <= MAX_ROW,
    ensures
        row_index_of(decimal((row + 1) as nat)) == Some(row),
{
    lemma_decimal((row + 1) as nat);
}

/// Parsing the address of a cell gives the cell back.
pub proof fn lemma_cell_roundtrip(cell: CellRef)
    requires
        cell.in_sheet(),
    ensures
        part_cell(cell.a1()) == Some(cell),
        part_column(cell.a1()) is None,
        part_row(cell.a1()) is None,
        forall|i: int| 0 <= i < cell.a1().len() ==> #[trigger] cell.a1()[i] != ':',
{
    let l = column_name_of(cell.col as nat);
    let d = decimal((cell.row + 1) as nat);
    lemma_column_name_roundtrip(cell.col);
    lemma_column_name_chars(cell.col);
    lemma_row_number_roundtrip(cell.row);
    lemma_decimal((cell.row + 1) as nat);
    let t = l + d;
    assert(t == cell.a1());
    assert forall|i: int| 0 <= i < t.len() implies #[trigger] t[i] != '$' && t[i] != ':' by {
        if i < l.len() {
            assert(t[i] == l[i]);
        } else {
            assert(t[i] == d[i - l.len()]);
        }
    }
    lemma_strip_no_dollars(t);
    lemma_alpha_end_concat(l, d, 0);
    assert(t.take(l.len() as int) =~= l);
    assert(t.skip(l.len() as int) =~= d);
}

/// Removing `$` from a text is removing it from each of its parts.
proof fn lemma_strip_dollars_concat(a: Seq<char>, b: Seq<char>)
    ensures
        strip_dollars(a + b) == strip_dollars(a) + strip_dollars(b),
    decreases b.len(),
{
    if b.len() == 0 {
        assert(a + b =~= a);
        assert(strip_dollars(a) + strip_dollars(b) =~= strip_dollars(a));
    } else {
        assert((a + b).drop_last() =~= a + b.drop_last());
        assert((a + b).last() == b.last());
        lemma_strip_dollars_concat(a, b.drop_last());
        assert(strip_dollars(a + b) =~= strip_dollars(a) + strip_dollars(b));
    }
}

/// The absolute address of a cell (e.g., `$C$6`) is read back as the cell, as its
/// plain address is.
pub proof fn lemma_absolute_cell_roundtrip(cell: CellRef)
    requires
        cell.in_sheet(),
    ensures
        part_cell(seq!['$'] + column_name_of(cell.col as nat) + seq!['$'] + decimal((cell.row + 1) as nat))
            == Some(cell),
{
    let l = column_name_of(cell.col as nat);
    let d = decimal((cell.row + 1) as nat);
    let dollar = seq!['$'];
    let text = dollar + l + dollar + d;
    lemma_cell_roundtrip(cell);
    lemma_strip_dollars_concat(dollar + l + dollar, d);
    lemma_strip_dollars_concat(dollar + l, dollar);
    lemma_strip_dollars_concat(dollar, l);
    assert(dollar.drop_last() =~= Seq::<char>::empty());
    assert(dollar.last() == '$');
    assert(strip_dollars(dollar.drop_last()) =~= Seq::<char>::empty());
    assert(strip_dollars(dollar) =~= Seq::<char>::empty());
    lemma_column_name_chars(cell.col);
    lemma_strip_no_dollars(l);
    lemma_decimal((cell.row + 1) as nat);
    lemma_strip_no_dollars(d);
    assert(strip_dollars(text) =~= l + d);
    assert(l + d == cell.a1());
    assert(strip_dollars(cell.a1()) == cell.a1()) by {
        assert forall|i: int| 0 <= i < cell.a1().len() implies #[trigger] cell.a1()[i] != '$' by {
            if i < l.len() {
                assert(cell.a1()[i] == l[i]);
            } else {
                assert(cell.a1()[i] == d[i - l.len()]);
            }
        }
        lemma_strip_no_dollars(cell.a1());
    }
    assert(split_part(text) == split_part(cell.a1()));
}

/// Parsing the text of a normalized range gives the range back.
pub proof fn lemma_range_roundtrip(range: CellRange)
    requires
        range.normalized(),
    ensures
        range_of(range.a1()) == Some(range),
{
    let (s, e) = (range.start, range.end);
    let t = range.a1();
    if s.row == 0 && e.row == MAX_ROW {
        let a = column_name_of(s.col as nat);
        let b = column_name_of(e.col as nat);
        lemma_column_part(s.col);
        lemma_column_part(e.col);
        lemma_column_name_chars(s.col);
        split_at_colon(a, b);
    } else if s.col == 0 && e.col == MAX_COL {
        let a = decimal((s.row + 1) as nat);
        let b = decimal((e.row + 1) as nat);
        lemma_row_part(s.row);
        lemma_row_part(e.row);
        lemma_decimal((s.row + 1) as nat);
        split_at_colon(a, b);
    } else if s == e {
        lemma_cell_roundtrip(s);
        lemma_colon_at_concat(t, Seq::empty(), 0);
        assert(t + Seq::<char>::empty() =~= t);
    } else {
        lemma_cell_roundtrip(s);
        lemma_cell_roundtrip(e);
        split_at_colon(s.a1(), e.a1());
    }
}

/// Splits `a:b` at the colon.
proof fn split_at_colon(a: Seq<char>, b: Seq<char>)
    requires
        forall|k: int| 0 <= k < a.len() ==> #[trigger] a[k] != ':',
    ensures
        colon_at(a + seq![':'] + b, 0) == a.len(),
        (a + seq![':'] + b).take(a.len() as int) == a,
        (a + seq![':'] + b).skip(a.len() as int + 1) == b,
        a.len() < (a + seq![':'] + b).len(),
{
    let t = a + seq![':'] + b;
    assert(t =~= a + (seq![':'] + b));
    lemma_colon_at_concat(a, seq![':'] + b, 0);
    assert(t.take(a.len() as int) =~= a);
    assert(t.skip(a.len() as int + 1) =~= b);
}

proof fn lemma_column_part(col: u32)
    requires
        col <= MAX_COL,
    ensures
        part_column(column_name_of(col as nat)) == Some(col),
        part_cell(column_name_of(col as nat)) is None,
{
    let l = column_name_of(col as nat);
    lemma_column_name_roundtrip(col);
    lemma_column_name_chars(col);
    lemma_strip_no_dollars(l);
    lemma_alpha_end_concat(l, Seq::empty(), 0);
    assert(l + Seq::<char>::empty() =~= l);
    assert(l.take(l.len() as int) =~= l);
    assert(l.skip(l.len() as int) =~= Seq::<char>::empty());
}

proof fn lemma_row_part(row: u32)
    requires
        row <= MAX_ROW,
    ensures
        part_row(decimal((row + 1) as nat)) == Some(row),
        part_cell(decimal((row + 1) as nat)) is None,
        part_column(decimal((row + 1) as nat)) is None,
{
    let d = decimal((row + 1) as nat);
    lemma_decimal((row + 1) as nat);
    lemma_row_number_roundtrip(row);
    lemma_strip_no_dollars(d);
    lemma_alpha_end_concat(Seq::empty(), d, 0);
    assert(Seq::<char>::empty() + d =~= d);
    assert(d.take(0) =~= Seq::<char>::empty());
    assert(d.skip(0) =~= d);
}

proof fn lemma_part_cell_in_sheet(text: Seq<char>)
    ensures
        part_cell(text) matches Some(c) ==> c.in_sheet(),
        part_column(text) matches Some(c) ==> c <= MAX_COL,
        part_row(text) matches Some(r) ==> r <= MAX_ROW,
{
    let (letters, digits) = split_part(text);
    if let Some(r) = row_index_of(digits) {
        assert(r <= MAX_ROW);
    }
}

/// Every parsed range is normalized: its corners are ordered and in a worksheet.
pub proof fn lemma_parsed_range_normalized(text: Seq<char>)
    ensures
        range_of(text) matches Some(r) ==> r.normalized(),
{
    let k = colon_at(text, 0);
    lemma_part_cell_in_sheet(text);
    if k != text.len() {
        let (first, second) = (text.take(k), text.skip(k + 1));
        lemma_part_cell_in_sheet(first);
        lemma_part_cell_in_sheet(second);
    }
}

/// A copy of the cells.
pub fn copy_cells(cells: &Vec<CellRef>) -> (r: Vec<CellRef>)
    ensures
        r@ == cells@,
{
    let mut r: Vec<CellRef> = Vec::new();
    let mut i: usize = 0;
    while i < cells.len()
        invariant
            i <= cells.len(),
            r@ == cells@.take(i as int),
        decreases cells.len() - i,
    {
        r.push(cells[i]);
        i += 1;
        assert(r@ =~= cells@.take(i as int));
    }
    assert(cells@.take(i as int) =~= cells@);
    r
}

} // verus!
