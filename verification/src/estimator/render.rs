//! Renders the estimation as a config file in JSON5, with the evidences as comments.
use vstd::prelude::*;
use super::{Analysis, SheetAnalysis, SheetAnalysisView, TableEstimate, TableEstimateView, sheets_view};
use super::columns::{column_names, column_names_chars};
use crate::cell::{column_chars, column_name_of};
use crate::text::{append, chars_of, decimal, decimal_chars, string_of};

verus! {

/// A hexadecimal digit (lowercase).
pub open spec fn hex_digit(d: int) -> char {
    if d < 10 {
        (('0' as int) + d) as char
    } else {
        (('a' as int) + d - 10) as char
    }
}

/// The character in a JSON string: `"` and `\` are escaped, and so are the
/// control characters.
pub open spec fn escape_char(c: char) -> Seq<char> {
    if c == '"' {
        seq!['\\', '"']
    } else if c == '\\' {
        seq!['\\', '\\']
    } else if c == '\n' {
        seq!['\\', 'n']
    } else if c == '\r' {
        seq!['\\', 'r']
    } else if c == '\t' {
        seq!['\\', 't']
    } else if ' ' > c {
        seq!['\\', 'u', '0', '0', hex_digit(c as int / 16), hex_digit(c as int % 16)]
    } else {
        seq![c]
    }
}

/// The characters escaped for a JSON string.
pub open spec fn escaped(s: Seq<char>) -> Seq<char>
    decreases s.len(),
{
    if s.len() == 0 {
        Seq::empty()
    } else {
        escaped(s.drop_last()) + escape_char(s.last())
    }
}

/// The text as a JSON string literal.
pub open spec fn json_string(s: Seq<char>) -> Seq<char> {
    seq!['"'] + escaped(s) + seq!['"']
}

/// The comment line of the columns tied with the id column, if any.
pub open spec fn ties_line(t: TableEstimateView) -> Seq<char> {
    if t.tied_columns.len() == 0 {
        Seq::empty()
    } else {
        "      // as many student ids: "@ + column_names(t.tied_columns) + "\n"@
    }
}

/// The line of the name column, or a comment if it is not found.
pub open spec fn name_line(t: TableEstimateView) -> Seq<char> {
    match t.layout.name_column {
        Some(c) => "      name_column: "@ + decimal(c as nat) + ", // "@ + column_name_of(c as nat)
            + " (names: "@ + decimal(t.names) + ")\n"@,
        None => "      // no name column found\n"@,
    }
}

/// The line of the id column.
pub open spec fn id_line(t: TableEstimateView) -> Seq<char> {
    "      id_column: "@ + decimal(t.layout.id_column as nat) + ", // "@ + column_name_of(
        t.layout.id_column as nat,
    ) + " (student ids: "@ + decimal(t.ids) + ")\n"@
}

/// The line of a row index with the Excel row number.
pub open spec fn row_line(key: Seq<char>, row: u32) -> Seq<char> {
    "      "@ + key + ": "@ + decimal(row as nat) + ", // Excel row "@ + decimal((row + 1) as nat) + "\n"@
}

/// The lines of the config of a sheet.
pub open spec fn sheet_lines(a: SheetAnalysisView) -> Seq<char> {
    match a.table {
        None => "    "@ + json_string(a.name) + ": { skip: true }, // no student ids found\n"@,
        Some(t) => "    "@ + json_string(a.name) + ": {\n"@ + id_line(t) + ties_line(t) + name_line(t)
            + row_line("start_row"@, t.layout.start_row) + row_line("end_row"@, t.layout.end_row)
            + "    },\n"@,
    }
}

/// The lines of the configs of the sheets, in order.
pub open spec fn sheets_lines(s: Seq<SheetAnalysisView>) -> Seq<char>
    decreases s.len(),
{
    if s.len() == 0 {
        Seq::empty()
    } else {
        sheets_lines(s.drop_last()) + sheet_lines(s.last())
    }
}

/// The comment at the top of the config file.
pub open spec fn header() -> Seq<char> {
    "// The student table of each sheet, estimated by `mosty init`.\n"@
        + "// Review the estimation with the comments, and fix it if needed.\n"@
}

/// The config file of the estimation.
pub open spec fn analysis_text(id_pattern: Seq<char>, sheets: Seq<SheetAnalysisView>) -> Seq<char> {
    header() + "{\n"@ + "  id_pattern: "@ + json_string(id_pattern) + ",\n"@ + "  sheets: {\n"@
        + sheets_lines(sheets) + "  },\n"@ + "}\n"@
}

// ---------------------------------------------------------------------------
// Reading the strings back.

/// The value of a hexadecimal digit.
pub open spec fn hex_value(c: char) -> Option<int> {
    if '0' <= c && c <= '9' {
        Some(c as int - '0' as int)
    } else if 'a' <= c && c <= 'f' {
        Some(c as int - 'a' as int + 10)
    } else if 'A' <= c && c <= 'F' {
        Some(c as int - 'A' as int + 10)
    } else {
        None
    }
}

/// The character of a `\u` escape with four hexadecimal digits (not a surrogate).
pub open spec fn unicode_escape(t: Seq<char>) -> Option<char> {
    if t.len() < 4 {
        None
    } else {
        match (hex_value(t[0]), hex_value(t[1]), hex_value(t[2]), hex_value(t[3])) {
            (Some(a), Some(b), Some(c), Some(d)) => {
                let v = ((a * 16 + b) * 16 + c) * 16 + d;
                if 0xD800 <= v && v <= 0xDFFF {
                    None
                } else {
                    Some(v as char)
                }
            },
            _ => None,
        }
    }
}

/// The character of an escape sequence after `\`, and its length.
pub open spec fn escape_sequence(t: Seq<char>) -> Option<(char, int)> {
    if t.len() == 0 {
        None
    } else if t[0] == '"' || t[0] == '\\' || t[0] == '/' {
        Some((t[0], 1))
    } else if t[0] == 'b' {
        Some(('\u{8}', 1))
    } else if t[0] == 'f' {
        Some(('\u{c}', 1))
    } else if t[0] == 'n' {
        Some(('\n', 1))
    } else if t[0] == 'r' {
        Some(('\r', 1))
    } else if t[0] == 't' {
        Some(('\t', 1))
    } else if t[0] == 'u' {
        match unicode_escape(t.skip(1)) {
            Some(c) => Some((c, 5)),
            None => None,
        }
    } else {
        None
    }
}

/// The characters of the inside of a JSON string literal, as a JSON reader reads
/// them; `None` if it is not a valid inside of a literal.
pub open spec fn json_unescape(t: Seq<char>) -> Option<Seq<char>>
    decreases t.len(),
{
    if t.len() == 0 {
        Some(Seq::empty())
    } else if t[0] == '\\' {
        match escape_sequence(t.skip(1)) {
            Some((c, n)) => match json_unescape(t.skip(1 + n)) {
                Some(rest) => Some(seq![c] + rest),
                None => None,
            },
            None => None,
        }
    } else if t[0] == '"' || ' ' > t[0] {
        None
    } else {
        match json_unescape(t.skip(1)) {
            Some(rest) => Some(seq![t[0]] + rest),
            None => None,
        }
    }
}

proof fn lemma_escaped_front(s: Seq<char>)
    requires
        s.len() > 0,
    ensures
        escaped(s) == escape_char(s[0]) + escaped(s.drop_first()),
    decreases s.len(),
{
    if s.len() == 1 {
        assert(s.drop_last() =~= Seq::<char>::empty());
        assert(s.drop_first() =~= Seq::<char>::empty());
        assert(escaped(s.drop_last()) =~= Seq::<char>::empty());
        assert(escaped(s.drop_first()) =~= Seq::<char>::empty());
        assert(s.last() == s[0]);
        assert(escaped(s) =~= escape_char(s[0]) + escaped(s.drop_first()));
    } else {
        lemma_escaped_front(s.drop_last());
        assert(s.drop_last().drop_first() =~= s.drop_first().drop_last());
        assert(s.drop_first().last() == s.last());
    }
}

proof fn lemma_hex_digit(d: int)
    requires
        0 <= d < 16,
    ensures
        hex_value(hex_digit(d)) == Some(d),
{
}

proof fn lemma_unescape_char(c: char, rest: Seq<char>)
    ensures
        json_unescape(escape_char(c) + rest) == match json_unescape(rest) {
            Some(r) => Some(seq![c] + r),
            None => None::<Seq<char>>,
        },
{
    let t = escape_char(c) + rest;
    if c == '"' || c == '\\' || c == '\n' || c == '\r' || c == '\t' {
        assert(t.skip(1)[0] == t[1]);
        assert(t.skip(2) =~= rest);
        assert(t.skip(2int) =~= rest);
    } else if ' ' > c {
        let (hi, lo) = (c as int / 16, c as int % 16);
        lemma_hex_digit(hi);
        lemma_hex_digit(lo);
        let u = t.skip(2);
        assert(u[0] == '0' && u[1] == '0' && u[2] == hex_digit(hi) && u[3] == hex_digit(lo));
        assert(unicode_escape(u) == Some(c));
        assert(t.skip(1).skip(1) =~= u);
        assert(t.skip(6int) =~= rest);
    } else {
        assert(t.skip(1) =~= rest);
    }
}

/// The inside of a JSON string literal that the config file holds for a text
/// reads back as the text.
pub proof fn lemma_json_round_trip(s: Seq<char>)
    ensures
        json_unescape(escaped(s)) == Some(s),
    decreases s.len(),
{
    if s.len() == 0 {
        assert(json_unescape(escaped(s)) == Some(Seq::<char>::empty()));
        assert(s =~= Seq::<char>::empty());
    } else {
        lemma_escaped_front(s);
        lemma_json_round_trip(s.drop_first());
        lemma_unescape_char(s[0], escaped(s.drop_first()));
        assert(seq![s[0]] + s.drop_first() =~= s);
    }
}

fn hex_char(d: u32) -> (r: char)
    requires
        d < 16,
    ensures
        r == hex_digit(d as int),
{
    if d < 10 {
        ((48 + d) as u8) as char
    } else {
        ((87 + d) as u8) as char
    }
}

spec fn char_of(j: u8) -> char {
    j as char
}

/// The code point of a control character.
fn control_code(c: char) -> (r: u32)
    requires
        ' ' > c,
    ensures
        r == c as int,
        r < 32,
{
    let mut k: u8 = 0;
    while k < 32 && k as char != c
        invariant
            k <= 32,
            ' ' > c,
            forall|j: u8| j < k ==> #[trigger] char_of(j) != c,
        decreases 32 - k,
    {
        k += 1;
    }
    if k == 32 {
        let ghost j = (c as int) as u8;
        assert(char_of(j) == c);
    }
    k as u32
}

/// Appends the text as a JSON string literal.
fn push_json_string(t: &mut Vec<char>, s: &str)
    ensures
        final(t)@ == old(t)@ + json_string(s@),
{
    let chars = chars_of(s);
    let ghost start = t@;
    t.push('"');
    let mut i: usize = 0;
    while i < chars.len()
        invariant
            i <= chars.len(),
            chars@ == s@,
            t@ == start + seq!['"'] + escaped(chars@.take(i as int)),
        decreases chars.len() - i,
    {
        assert(chars@.take(i + 1).drop_last() =~= chars@.take(i as int));
        let c = chars[i];
        let ghost before = t@;
        if c == '"' {
            t.push('\\');
            t.push('"');
        } else if c == '\\' {
            t.push('\\');
            t.push('\\');
        } else if c == '\n' {
            t.push('\\');
            t.push('n');
        } else if c == '\r' {
            t.push('\\');
            t.push('r');
        } else if c == '\t' {
            t.push('\\');
            t.push('t');
        } else if ' ' > c {
            let v = control_code(c);
            t.push('\\');
            t.push('u');
            t.push('0');
            t.push('0');
            t.push(hex_char(v / 16));
            t.push(hex_char(v % 16));
        } else {
            t.push(c);
        }
        assert(t@ =~= before + escape_char(c));
        i += 1;
    }
    assert(chars@.take(chars.len() as int) =~= chars@);
    t.push('"');
}

/// Appends the decimal text of the number.
fn push_decimal(t: &mut Vec<char>, n: u64)
    ensures
        final(t)@ == old(t)@ + decimal(n as nat),
{
    append(t, &decimal_chars(n));
}

fn push_text(t: &mut Vec<char>, s: &str)
    ensures
        final(t)@ == old(t)@ + s@,
{
    append(t, &chars_of(s));
}

fn push_id_line(t: &mut Vec<char>, table: &TableEstimate)
    ensures
        final(t)@ == old(t)@ + id_line(table@),
{
    let mut l = chars_of("      id_column: ");
    append(&mut l, &decimal_chars(table.layout.id_column as u64));
    append(&mut l, &chars_of(", // "));
    append(&mut l, &column_chars(table.layout.id_column));
    append(&mut l, &chars_of(" (student ids: "));
    append(&mut l, &decimal_chars(table.ids as u64));
    append(&mut l, &chars_of(")\n"));
    append(t, &l);
}

fn push_ties_line(t: &mut Vec<char>, table: &TableEstimate)
    ensures
        final(t)@ == old(t)@ + ties_line(table@),
{
    if table.tied_columns.len() > 0 {
        let mut l = chars_of("      // as many student ids: ");
        append(&mut l, &column_names_chars(&table.tied_columns));
        append(&mut l, &chars_of("\n"));
        append(t, &l);
    } else {
        assert(t@ =~= t@ + Seq::<char>::empty());
    }
}

fn push_name_line(t: &mut Vec<char>, table: &TableEstimate)
    ensures
        final(t)@ == old(t)@ + name_line(table@),
{
    match table.layout.name_column {
        Some(c) => {
            let mut l = chars_of("      name_column: ");
            append(&mut l, &decimal_chars(c as u64));
            append(&mut l, &chars_of(", // "));
            append(&mut l, &column_chars(c));
            append(&mut l, &chars_of(" (names: "));
            append(&mut l, &decimal_chars(table.names as u64));
            append(&mut l, &chars_of(")\n"));
            append(t, &l);
        },
        None => {
            push_text(t, "      // no name column found\n");
        },
    }
}

fn push_row_line(t: &mut Vec<char>, key: &str, row: u32)
    ensures
        final(t)@ == old(t)@ + row_line(key@, row),
{
    let mut l = chars_of("      ");
    append(&mut l, &chars_of(key));
    append(&mut l, &chars_of(": "));
    append(&mut l, &decimal_chars(row as u64));
    append(&mut l, &chars_of(", // Excel row "));
    append(&mut l, &decimal_chars(row as u64 + 1));
    append(&mut l, &chars_of("\n"));
    append(t, &l);
}

fn push_sheet(t: &mut Vec<char>, sheet: &SheetAnalysis)
    ensures
        final(t)@ == old(t)@ + sheet_lines(sheet@),
{
    let ghost start = t@;
    let mut l = chars_of("    ");
    push_json_string(&mut l, sheet.name.as_str());
    match &sheet.table {
        None => {
            push_text(&mut l, ": { skip: true }, // no student ids found\n");
        },
        Some(table) => {
            push_text(&mut l, ": {\n");
            let ghost a = l@;
            push_id_line(&mut l, table);
            let ghost b = l@;
            push_ties_line(&mut l, table);
            let ghost c = l@;
            push_name_line(&mut l, table);
            let ghost d = l@;
            push_row_line(&mut l, "start_row", table.layout.start_row);
            let ghost e = l@;
            push_row_line(&mut l, "end_row", table.layout.end_row);
            let ghost f = l@;
            push_text(&mut l, "    },\n");
            assert(l@ =~= a + id_line(table@) + ties_line(table@) + name_line(table@) + row_line(
                "start_row"@,
                table.layout.start_row,
            ) + row_line("end_row"@, table.layout.end_row) + "    },\n"@);
        },
    }
    append(t, &l);
}

/// Renders the estimation as a config file in JSON5 with comments.
pub(super) fn render(analysis: &Analysis) -> (r: String)
    ensures
        r@ == analysis_text(analysis.id_pattern@, sheets_view(analysis.sheets@)),
{
    let ghost sv = sheets_view(analysis.sheets@);
    let mut t = chars_of("// The student table of each sheet, estimated by `mosty init`.\n");
    push_text(&mut t, "// Review the estimation with the comments, and fix it if needed.\n");
    push_text(&mut t, "{\n");
    push_text(&mut t, "  id_pattern: ");
    push_json_string(&mut t, analysis.id_pattern.as_str());
    push_text(&mut t, ",\n");
    push_text(&mut t, "  sheets: {\n");
    let ghost prefix = t@;
    let mut i: usize = 0;
    while i < analysis.sheets.len()
        invariant
            i <= analysis.sheets.len(),
            sv == sheets_view(analysis.sheets@),
            t@ == prefix + sheets_lines(sv.take(i as int)),
        decreases analysis.sheets.len() - i,
    {
        assert(sv.take(i + 1).drop_last() =~= sv.take(i as int));
        push_sheet(&mut t, &analysis.sheets[i]);
        i += 1;
    }
    assert(sv.take(analysis.sheets.len() as int) =~= sv);
    push_text(&mut t, "  },\n");
    push_text(&mut t, "}\n");
    string_of(&t)
}

} // verus!
