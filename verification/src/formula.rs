//! Extracts cell references from formulas.
//!
//! The scanner recognizes cell references with or without sheet names (quoted
//! names such as `'課題 (前半)'!$D$4` are supported), ranges, whole columns, and
//! whole rows. It also records whether each reference is used in lookup functions
//! (e.g., `VLOOKUP`) or in functions whose referring cells are determined at
//! runtime (e.g., `OFFSET`), since the checker treats them differently.
//!
//! The behaviour is stated by the scanner model [`scan`]: a state machine over the
//! characters of the formula, one step per token.
use vstd::prelude::*;
use crate::cell::{CellRange, CellRef, range_of};
use crate::text::{append, chars_eq, chars_of, is_digit, is_white_space, is_whitespace, skip_ws, slice_chars, string_of, trim, trim_chars, trim_end_at};

verus! {

/// How a reference is used in a formula.
#[derive(Debug, Clone, Copy, PartialEq, Eq, Structural)]
pub enum Usage {
    /// Used directly (e.g., `=課題!C6`, `=SUM(課題!C2:C100)`).
    Direct,
    /// Used in an argument of a lookup function (e.g., `VLOOKUP`).
    Lookup,
    /// Used in an argument of a function such as `OFFSET` and `INDIRECT`.
    Dynamic,
}

/// A reference found in a formula.
#[derive(Debug, PartialEq, Eq)]
pub struct Reference {
    /// The sheet name, or `None` for a reference in the same sheet.
    pub sheet: Option<String>,
    /// The referred cells. A single cell is a range of the cell.
    pub range: CellRange,
    /// How the reference is used in the formula.
    pub usage: Usage,
    /// The position of the reference in the formula (in characters).
    pub span: (usize, usize),
}

/// The result of parsing a formula.
#[derive(Debug, Default)]
pub struct Formula {
    /// The references in the order of appearance, including those in the same sheet.
    pub references: Vec<Reference>,
    /// Terms whose referring cells cannot be determined statically
    /// (named ranges, external references, `OFFSET`, `INDIRECT`).
    pub unresolved: Vec<String>,
}

/// The model of a reference: the sheet, the range, the usage, and the span.
pub struct RefView {
    pub sheet: Option<Seq<char>>,
    pub range: CellRange,
    pub usage: Usage,
    pub start: int,
    pub end: int,
}

/// The model of a parsed formula.
pub struct FormulaView {
    pub references: Seq<RefView>,
    pub unresolved: Seq<Seq<char>>,
}

pub open spec fn opt_view(s: Option<String>) -> Option<Seq<char>> {
    match s {
        Some(s) => Some(s@),
        None => None,
    }
}

impl View for Reference {
    type V = RefView;

    open spec fn view(&self) -> RefView {
        RefView {
            sheet: opt_view(self.sheet),
            range: self.range,
            usage: self.usage,
            start: self.span.0 as int,
            end: self.span.1 as int,
        }
    }
}

impl Clone for Reference {
    fn clone(&self) -> (r: Self)
        ensures
            r@ == self@,
    {
        let sheet = match &self.sheet {
            Some(s) => Some(s.clone()),
            None => None,
        };
        Reference { sheet, range: self.range, usage: self.usage, span: self.span }
    }
}

impl Reference {
    /// The position of the reference in the formula (in characters, end exclusive).
    pub fn span(&self) -> (r: (usize, usize))
        ensures
            r.0 == self@.start,
            r.1 == self@.end,
    {
        self.span
    }
}

impl View for Formula {
    type V = FormulaView;

    open spec fn view(&self) -> FormulaView {
        FormulaView {
            references: self.references@.map_values(|r: Reference| r@),
            unresolved: self.unresolved@.map_values(|u: String| u@),
        }
    }
}

// ---------------------------------------------------------------------------
// The scanner model.

/// Characters that terminate a word (sheet name, cell address, function name, ...).
pub open spec fn is_delimiter(c: char) -> bool {
    ||| c == '+' ||| c == '-' ||| c == '*' ||| c == '/' ||| c == '^' ||| c == '&'
    ||| c == '=' ||| c == '<' ||| c == '>' ||| c == '(' ||| c == ')' ||| c == ','
    ||| c == ';' ||| c == ':' ||| c == '!' ||| c == '{' ||| c == '}' ||| c == '%'
    ||| c == '"' ||| c == '\'' ||| c == '[' ||| c == ']' ||| c == '#'
}

/// Returns true if the character can be a part of a word.
pub open spec fn is_word(c: char) -> bool {
    !is_white_space(c) && !is_delimiter(c)
}

/// The end of the word starting at `i`.
pub open spec fn word_end(s: Seq<char>, i: int) -> int
    decreases s.len() - i,
{
    if 0 <= i < s.len() && is_word(s[i]) {
        word_end(s, i + 1)
    } else {
        i
    }
}

/// The end of `A1`, `A1:B2`, `C:C`, or `2:5` starting at `i`: a word, and another
/// word after `:` if there is one.
pub open spec fn range_text_end(s: Seq<char>, i: int) -> int {
    let e = word_end(s, i);
    if 0 <= e && e + 1 < s.len() && s[e] == ':' && is_word(s[e + 1]) {
        word_end(s, e + 1)
    } else {
        e
    }
}

/// The end of a string literal whose content starts at `p` (`""` is an escaped quote).
pub open spec fn string_end(s: Seq<char>, p: int) -> int
    decreases s.len() - p,
{
    if p < 0 || p >= s.len() {
        p
    } else if s[p] == '"' {
        if p + 1 < s.len() && s[p + 1] == '"' {
            string_end(s, p + 2)
        } else {
            p + 1
        }
    } else {
        string_end(s, p + 1)
    }
}

/// The name in single quotes whose content starts at `p` (`''` is an escaped quote),
/// and the position after the closing quote.
pub open spec fn quoted_name(s: Seq<char>, p: int) -> (Seq<char>, int)
    decreases s.len() - p,
{
    if p < 0 || p >= s.len() {
        (Seq::empty(), p)
    } else if s[p] == '\'' {
        if p + 1 < s.len() && s[p + 1] == '\'' {
            let (n, e) = quoted_name(s, p + 2);
            (seq!['\''] + n, e)
        } else {
            (Seq::empty(), p + 1)
        }
    } else {
        let (n, e) = quoted_name(s, p + 1);
        (seq![s[p]] + n, e)
    }
}

/// The index of the first `]` at or after `p`, or the length.
pub open spec fn bracket_end(s: Seq<char>, p: int) -> int
    decreases s.len() - p,
{
    if 0 <= p < s.len() && s[p] != ']' {
        bracket_end(s, p + 1)
    } else {
        p
    }
}

/// The characters in upper case (ASCII letters only).
pub open spec fn ascii_upper(s: Seq<char>) -> Seq<char> {
    s.map_values(|c: char| upper_char(c))
}

pub open spec fn upper_char(c: char) -> char {
    if 'a' <= c && c <= 'z' {
        ((c as int) - 32) as char
    } else {
        c
    }
}

/// The start of the part after the last `.` in `s[..j]`.
pub open spec fn after_dot(s: Seq<char>, j: int) -> int
    decreases j,
{
    if j <= 0 {
        0
    } else if s[j - 1] == '.' {
        j
    } else {
        after_dot(s, j - 1)
    }
}

/// Functions whose range arguments identify students by a lookup key.
pub open spec fn is_lookup_function(u: Seq<char>) -> bool {
    ||| u == "VLOOKUP"@ ||| u == "HLOOKUP"@ ||| u == "XLOOKUP"@ ||| u == "LOOKUP"@
    ||| u == "MATCH"@ ||| u == "XMATCH"@ ||| u == "INDEX"@ ||| u == "COUNTIF"@
    ||| u == "COUNTIFS"@ ||| u == "SUMIF"@ ||| u == "SUMIFS"@ ||| u == "AVERAGEIF"@
    ||| u == "AVERAGEIFS"@
}

/// Functions whose referring cells cannot be determined statically.
pub open spec fn is_dynamic_function(u: Seq<char>) -> bool {
    u == "OFFSET"@ || u == "INDIRECT"@
}

/// The usage of references in the call of the function (prefixes such as `_xlfn.`
/// are ignored).
pub open spec fn frame_of(name: Seq<char>) -> Usage {
    let u = ascii_upper(name.skip(after_dot(name, name.len() as int)));
    if is_lookup_function(u) {
        Usage::Lookup
    } else if is_dynamic_function(u) {
        Usage::Dynamic
    } else {
        Usage::Direct
    }
}

/// The usage of references inside the enclosing calls, the innermost last.
pub open spec fn usage_of(frames: Seq<Usage>) -> Usage {
    if frames.contains(Usage::Dynamic) {
        Usage::Dynamic
    } else if frames.contains(Usage::Lookup) {
        Usage::Lookup
    } else {
        Usage::Direct
    }
}

/// Returns true if the term looks like a defined name (not a number or a boolean).
pub open spec fn is_name(t: Seq<char>) -> bool {
    &&& t.len() > 0
    &&& !(is_digit(t[0]) || t[0] == '.')
    &&& ascii_upper(t) != "TRUE"@
    &&& ascii_upper(t) != "FALSE"@
}

/// The state of the scanner: the position, the enclosing calls, and the result so far.
pub struct ScanState {
    pub pos: int,
    pub frames: Seq<Usage>,
    pub formula: FormulaView,
}

impl ScanState {
    pub open spec fn at(self, pos: int) -> ScanState {
        ScanState { pos, ..self }
    }

    pub open spec fn unresolved(self, term: Seq<char>) -> ScanState {
        ScanState {
            formula: FormulaView {
                unresolved: self.formula.unresolved.push(term),
                ..self.formula
            },
            ..self
        }
    }

    pub open spec fn reference(self, r: RefView) -> ScanState {
        ScanState {
            formula: FormulaView {
                references: self.formula.references.push(r),
                ..self.formula
            },
            ..self
        }
    }
}

/// Records the reference from `start` to the current position, if the text is a range.
pub open spec fn push_reference(
    st: ScanState,
    start: int,
    sheet: Option<Seq<char>>,
    text: Seq<char>,
) -> ScanState {
    match range_of(text) {
        Some(range) => st.reference(
            RefView { sheet, range, usage: usage_of(st.frames), start, end: st.pos },
        ),
        None => st,
    }
}

/// A term without a sheet name at the current position: a local reference, a named
/// range, or a literal.
pub open spec fn local_term(s: Seq<char>, st: ScanState) -> ScanState {
    let start = st.pos;
    let e = range_text_end(s, start);
    let text = s.subrange(start, e);
    let st2 = st.at(e);
    if range_of(text) is Some {
        push_reference(st2, start, None, text)
    } else if is_name(text) {
        st2.unresolved(text)
    } else {
        st2
    }
}

/// The cell part after `<sheet>!` at the current position.
pub open spec fn sheet_reference(s: Seq<char>, st: ScanState, start: int, sheet: Seq<char>) -> ScanState {
    let e = range_text_end(s, st.pos);
    let text = s.subrange(st.pos, e);
    let st2 = st.at(e);
    if range_of(text) is Some {
        push_reference(st2, start, Some(sheet), text)
    } else {
        st2.unresolved(sheet + seq!['!'] + text)
    }
}

/// The cell part of an external reference, recorded as unresolved.
pub open spec fn external_tail(s: Seq<char>, st: ScanState, name: Seq<char>) -> ScanState {
    let e = range_text_end(s, st.pos);
    st.at(e).unresolved(name + seq!['!'] + s.subrange(st.pos, e))
}

/// A word: a sheet name before `!`, a function name before `(`, or a local term.
pub open spec fn word_step(s: Seq<char>, st: ScanState) -> ScanState {
    let start = st.pos;
    let e = word_end(s, start);
    let w = s.subrange(start, e);
    if e < s.len() && s[e] == '!' {
        sheet_reference(s, st.at(e + 1), start, w)
    } else if e < s.len() && s[e] == '(' {
        let f = frame_of(w);
        let st2 = if f == Usage::Dynamic { st.unresolved(w) } else { st };
        ScanState { pos: e + 1, frames: st2.frames.push(f), ..st2 }
    } else {
        local_term(s, st)
    }
}

/// A quoted sheet name and the following reference.
pub open spec fn quoted_step(s: Seq<char>, st: ScanState) -> ScanState {
    let start = st.pos;
    let (name, e) = quoted_name(s, start + 1);
    if e < s.len() && s[e] == '!' {
        if name.len() > 0 && name[0] == '[' {
            external_tail(s, st.at(e + 1), name)
        } else {
            sheet_reference(s, st.at(e + 1), start, name)
        }
    } else {
        st.at(e)
    }
}

/// An external reference such as `[1]Sheet1!A1`, recorded as unresolved. Without
/// a closing `]`, the rest of the formula is recorded as unresolved.
pub open spec fn external_step(s: Seq<char>, st: ScanState) -> ScanState {
    let start = st.pos;
    let k = bracket_end(s, start);
    if k >= s.len() {
        st.unresolved(s.subrange(start, s.len() as int)).at(s.len() as int)
    } else {
        let e = word_end(s, k + 1);
        if e < s.len() && s[e] == '!' {
            external_tail(s, st.at(e + 1), s.subrange(start, e))
        } else {
            st.at(e)
        }
    }
}

/// An error literal such as `#N/A` and `#REF!`.
pub open spec fn error_literal_step(s: Seq<char>, st: ScanState) -> ScanState {
    let e1 = word_end(s, st.pos + 1);
    let p2 = if e1 < s.len() && s[e1] == '!' { e1 + 1 } else { e1 };
    let p3 = if p2 < s.len() && s[p2] == '/' { p2 + 1 } else { p2 };
    st.at(word_end(s, p3))
}

/// One step of the scanner at the current character.
pub open spec fn step(s: Seq<char>, st: ScanState) -> ScanState {
    let c = s[st.pos];
    if c == '"' {
        st.at(string_end(s, st.pos + 1))
    } else if c == '\'' {
        quoted_step(s, st)
    } else if c == '[' {
        external_step(s, st)
    } else if c == '#' {
        error_literal_step(s, st)
    } else if c == '(' {
        ScanState { pos: st.pos + 1, frames: st.frames.push(Usage::Direct), ..st }
    } else if c == ')' {
        ScanState {
            pos: st.pos + 1,
            frames: if st.frames.len() > 0 { st.frames.drop_last() } else { st.frames },
            ..st
        }
    } else if is_word(c) {
        word_step(s, st)
    } else {
        st.at(st.pos + 1)
    }
}

/// Runs the scanner to the end of the characters.
pub open spec fn scan(s: Seq<char>, st: ScanState) -> ScanState
    decreases s.len() - st.pos,
{
    if st.pos < 0 || st.pos >= s.len() {
        st
    } else {
        proof {
            lemma_step_advances(s, st);
        }
        scan(s, step(s, st))
    }
}

/// The index of the first character at or after `i` which is not `=`.
pub open spec fn skip_eq(s: Seq<char>, i: int) -> int
    decreases s.len() - i,
{
    if 0 <= i < s.len() && s[i] == '=' {
        skip_eq(s, i + 1)
    } else {
        i
    }
}

/// The formula text that is scanned: trimmed, without the leading `=`.
pub open spec fn formula_body(text: Seq<char>) -> Seq<char> {
    let t = trim(text);
    t.skip(skip_eq(t, 0))
}

pub open spec fn initial_state() -> ScanState {
    ScanState {
        pos: 0,
        frames: Seq::empty(),
        formula: FormulaView { references: Seq::empty(), unresolved: Seq::empty() },
    }
}

/// The result of parsing the formula.
pub open spec fn parsed(text: Seq<char>) -> FormulaView {
    scan(formula_body(text), initial_state()).formula
}

/// The reference of a formula that consists of a single cell reference only.
pub open spec fn simple_reference_of(text: Seq<char>) -> Option<(Option<Seq<char>>, CellRef)> {
    let t = formula_body(text);
    let f = parsed(t);
    if f.references.len() == 1 && f.references[0].start == 0 && f.references[0].end == t.len()
        && f.references[0].range.start == f.references[0].range.end {
        Some((f.references[0].sheet, f.references[0].range.start))
    } else {
        None
    }
}

// ---------------------------------------------------------------------------
// Bounds of the model.

pub proof fn lemma_word_end(s: Seq<char>, i: int)
    requires
        0 <= i <= s.len(),
    ensures
        i <= word_end(s, i) <= s.len(),
        forall|k: int| i <= k < word_end(s, i) ==> is_word(#[trigger] s[k]),
        word_end(s, i) < s.len() ==> !is_word(s[word_end(s, i)]),
    decreases s.len() - i,
{
    if i < s.len() && is_word(s[i]) {
        lemma_word_end(s, i + 1);
    }
}

pub proof fn lemma_range_text_end(s: Seq<char>, i: int)
    requires
        0 <= i <= s.len(),
    ensures
        i <= word_end(s, i) <= range_text_end(s, i) <= s.len(),
{
    lemma_word_end(s, i);
    let e = word_end(s, i);
    if e + 1 < s.len() && s[e] == ':' && is_word(s[e + 1]) {
        lemma_word_end(s, e + 1);
    }
}

proof fn lemma_string_end(s: Seq<char>, p: int)
    requires
        0 <= p <= s.len(),
    ensures
        p <= string_end(s, p) <= s.len(),
    decreases s.len() - p,
{
    if p < s.len() {
        if s[p] == '"' {
            if p + 1 < s.len() && s[p + 1] == '"' {
                lemma_string_end(s, p + 2);
            }
        } else {
            lemma_string_end(s, p + 1);
        }
    }
}

proof fn lemma_quoted_name(s: Seq<char>, p: int)
    requires
        0 <= p <= s.len(),
    ensures
        p <= quoted_name(s, p).1 <= s.len(),
    decreases s.len() - p,
{
    if p < s.len() {
        if s[p] == '\'' {
            if p + 1 < s.len() && s[p + 1] == '\'' {
                lemma_quoted_name(s, p + 2);
            }
        } else {
            lemma_quoted_name(s, p + 1);
        }
    }
}

proof fn lemma_bracket_end(s: Seq<char>, p: int)
    requires
        0 <= p <= s.len(),
    ensures
        p <= bracket_end(s, p) <= s.len(),
        bracket_end(s, p) < s.len() ==> s[bracket_end(s, p)] == ']',
    decreases s.len() - p,
{
    if p < s.len() && s[p] != ']' {
        lemma_bracket_end(s, p + 1);
    }
}

/// Each step moves forward, and stays in the characters.
pub proof fn lemma_step_advances(s: Seq<char>, st: ScanState)
    requires
        0 <= st.pos < s.len(),
    ensures
        st.pos < step(s, st).pos <= s.len(),
{
    let c = s[st.pos];
    if c == '"' {
        lemma_string_end(s, st.pos + 1);
    } else if c == '\'' {
        lemma_quoted_name(s, st.pos + 1);
        let e = quoted_name(s, st.pos + 1).1;
        if e < s.len() {
            lemma_range_text_end(s, e + 1);
        }
    } else if c == '[' {
        assert(c != '"' && c != '\'');
        lemma_bracket_end(s, st.pos);
        let k = bracket_end(s, st.pos);
        if k < s.len() {
            lemma_word_end(s, k + 1);
            let e = word_end(s, k + 1);
            if e < s.len() {
                lemma_range_text_end(s, e + 1);
            }
        }
    } else if c == '#' {
        lemma_word_end(s, st.pos + 1);
        let e1 = word_end(s, st.pos + 1);
        let p2 = if e1 < s.len() && s[e1] == '!' { e1 + 1 } else { e1 };
        let p3 = if p2 < s.len() && s[p2] == '/' { p2 + 1 } else { p2 };
        lemma_word_end(s, p3);
    } else if is_word(c) && c != '(' && c != ')' {
        lemma_word_end(s, st.pos);
        lemma_word_end(s, st.pos + 1);
        lemma_range_text_end(s, st.pos);
        let e = word_end(s, st.pos);
        assert(e == word_end(s, st.pos + 1));
        assert(e > st.pos);
        if e < s.len() {
            lemma_range_text_end(s, e + 1);
        }
        if e < s.len() && s[e] == '!' {
            assert(sheet_reference(s, st.at(e + 1), st.pos, s.subrange(st.pos, e)).pos == range_text_end(s, e + 1));
        } else if e < s.len() && s[e] == '(' {
            assert(word_step(s, st).pos == e + 1);
        } else {
            let t = s.subrange(st.pos, range_text_end(s, st.pos));
            assert(local_term(s, st).pos == range_text_end(s, st.pos));
        }
        assert(st.pos < word_step(s, st).pos <= s.len());
    } else {
        assert(!is_word(c));
    }
}

// ---------------------------------------------------------------------------
// The order of the references.

/// The references start at 0, each ends where or before the next one starts, and
/// all end at or before `bound`.
pub open spec fn references_ordered(refs: Seq<RefView>, bound: int) -> bool {
    &&& forall|i: int| 0 <= i < refs.len() ==> 0 <= #[trigger] refs[i].start <= refs[i].end <= bound
    &&& forall|i: int, j: int| 0 <= i < j < refs.len() ==> #[trigger] refs[i].end <= #[trigger] refs[j].start
}

/// A step keeps the references, or adds one that starts at or after the position
/// before the step and ends at the position after it.
pub open spec fn step_extends(before: ScanState, after: ScanState) -> bool {
    let old = before.formula.references;
    let new = after.formula.references;
    ||| new == old
    ||| {
        &&& new == old.push(new.last())
        &&& before.pos <= new.last().start <= new.last().end
        &&& new.last().end == after.pos
    }
}

proof fn lemma_push_reference(st: ScanState, start: int, sheet: Option<Seq<char>>, text: Seq<char>, before: ScanState)
    requires
        st.formula.references == before.formula.references,
        before.pos <= start <= st.pos,
    ensures
        step_extends(before, push_reference(st, start, sheet, text)),
        push_reference(st, start, sheet, text).pos == st.pos,
{
    let n = push_reference(st, start, sheet, text);
    if range_of(text) is Some {
        assert(n.formula.references == before.formula.references.push(n.formula.references.last()));
    }
}

proof fn lemma_sheet_reference_extends(s: Seq<char>, st: ScanState, start: int, sheet: Seq<char>, before: ScanState)
    requires
        st.formula.references == before.formula.references,
        0 <= before.pos <= start <= st.pos <= s.len(),
    ensures
        step_extends(before, sheet_reference(s, st, start, sheet)),
{
    lemma_range_text_end(s, st.pos);
    let e = range_text_end(s, st.pos);
    let text = s.subrange(st.pos, e);
    if range_of(text) is Some {
        lemma_push_reference(st.at(e), start, Some(sheet), text, before);
    }
}

/// Each step of the scanner keeps the references or adds one after them.
proof fn lemma_step_extends(s: Seq<char>, st: ScanState)
    requires
        0 <= st.pos < s.len(),
    ensures
        step_extends(st, step(s, st)),
{
    lemma_step_advances(s, st);
    let c = s[st.pos];
    if c == '\'' {
        lemma_quoted_name(s, st.pos + 1);
        let (name, e) = quoted_name(s, st.pos + 1);
        if e < s.len() && s[e] == '!' && !(name.len() > 0 && name[0] == '[') {
            lemma_sheet_reference_extends(s, st.at(e + 1), st.pos, name, st);
        }
    } else if c == '"' || c == '[' || c == '#' || c == '(' || c == ')' {
    } else if is_word(c) {
        lemma_word_end(s, st.pos);
        let e = word_end(s, st.pos);
        if e < s.len() && s[e] == '!' {
            lemma_sheet_reference_extends(s, st.at(e + 1), st.pos, s.subrange(st.pos, e), st);
        } else if e < s.len() && s[e] == '(' {
        } else {
            lemma_range_text_end(s, st.pos);
            let e2 = range_text_end(s, st.pos);
            let text = s.subrange(st.pos, e2);
            if range_of(text) is Some {
                lemma_push_reference(st.at(e2), st.pos, None, text, st);
            }
        }
    }
}

/// The scanner keeps the references in order, within the scanned text.
proof fn lemma_scan_ordered(s: Seq<char>, st: ScanState)
    requires
        0 <= st.pos <= s.len(),
        references_ordered(st.formula.references, st.pos),
    ensures
        references_ordered(scan(s, st).formula.references, s.len() as int),
    decreases s.len() - st.pos,
{
    if st.pos < s.len() {
        lemma_step_advances(s, st);
        lemma_step_extends(s, st);
        let n = step(s, st);
        let old = st.formula.references;
        let new = n.formula.references;
        assert(references_ordered(new, n.pos)) by {
            if new != old {
                assert forall|i: int| 0 <= i < new.len() implies 0 <= #[trigger] new[i].start <= new[i].end
                    <= n.pos by {
                    if i < old.len() {
                        assert(new[i] == old[i]);
                    }
                }
                assert forall|i: int, j: int| 0 <= i < j < new.len() implies #[trigger] new[i].end
                    <= #[trigger] new[j].start by {
                    assert(new[i] == old[i]);
                    if j < old.len() {
                        assert(new[j] == old[j]);
                    } else {
                        assert(0 <= old[i].start <= old[i].end <= st.pos);
                        assert(new[j] == new.last());
                    }
                }
            }
        }
        lemma_scan_ordered(s, n);
    } else {
        assert(scan(s, st) == st);
    }
}

/// The references of a parsed formula are listed in the order in which they
/// appear and never overlap: each ends where or before the next one starts, and
/// all lie within the scanned text.
pub proof fn lemma_references_ordered(text: Seq<char>)
    ensures
        references_ordered(parsed(text).references, formula_body(text).len() as int),
{
    lemma_scan_ordered(formula_body(text), initial_state());
}

// ---------------------------------------------------------------------------
// Wrapping a formula in `SUM( )`.

/// The formula wrapped in `SUM( )`.
pub open spec fn sum_of(f: Seq<char>) -> Seq<char> {
    seq!['S', 'U', 'M', '('] + f + seq![')']
}

/// The reference moved by `d` characters.
pub open spec fn shifted(r: RefView, d: int) -> RefView {
    RefView { start: r.start + d, end: r.end + d, ..r }
}

/// The result `a` has the unresolved terms of `b`, and its references, each moved
/// by `d` characters.
pub open spec fn formulas_shifted(a: FormulaView, b: FormulaView, d: int) -> bool {
    &&& a.unresolved == b.unresolved
    &&& a.references.len() == b.references.len()
    &&& forall|i: int| 0 <= i < a.references.len() ==> #[trigger] a.references[i] == shifted(b.references[i], d)
}

/// The scanner meets no `[` without a later `]`.
pub open spec fn brackets_closed(s: Seq<char>, st: ScanState) -> bool
    decreases s.len() - st.pos,
{
    if st.pos < 0 || st.pos >= s.len() {
        true
    } else {
        proof {
            lemma_step_advances(s, st);
        }
        (s[st.pos] == '[' ==> bracket_end(s, st.pos) < s.len()) && brackets_closed(s, step(s, st))
    }
}

spec fn frames_related(a: Seq<Usage>, b: Seq<Usage>) -> bool {
    a == seq![Usage::Direct] + b || a == b
}

/// The state `sg` of scanning `SUM(f)` is the state `sf` of scanning `f`, four
/// characters later.
spec fn sum_related(f: Seq<char>, sf: ScanState, sg: ScanState) -> bool {
    &&& 0 <= sf.pos <= f.len()
    &&& sg.pos == sf.pos + 4
    &&& frames_related(sg.frames, sf.frames)
    &&& formulas_shifted(sg.formula, sf.formula, 4)
}

/// Both scans are at their ends, with related results.
spec fn sum_done(f: Seq<char>, sf: ScanState, sg: ScanState) -> bool {
    &&& sf.pos == f.len()
    &&& sg.pos == f.len() + 5
    &&& formulas_shifted(sg.formula, sf.formula, 4)
}

proof fn lemma_sum_chars(f: Seq<char>)
    ensures
        sum_of(f).len() == f.len() + 5,
        forall|k: int| 0 <= k < f.len() ==> #[trigger] sum_of(f)[k + 4] == f[k],
        sum_of(f)[f.len() + 4int] == ')',
        sum_of(f)[0] == 'S' && sum_of(f)[1] == 'U' && sum_of(f)[2] == 'M' && sum_of(f)[3] == '(',
        forall|i: int, j: int| 0 <= i <= j <= f.len() ==> #[trigger] sum_of(f).subrange(i + 4, j + 4) == f.subrange(i, j),
{
    let g = sum_of(f);
    assert forall|k: int| 0 <= k < f.len() implies #[trigger] g[k + 4] == f[k] by {}
    assert forall|i: int, j: int| 0 <= i <= j <= f.len() implies #[trigger] g.subrange(i + 4, j + 4) == f.subrange(i, j) by {
        assert(g.subrange(i + 4, j + 4) =~= f.subrange(i, j));
    }
}

proof fn lemma_usage_related(a: Seq<Usage>, b: Seq<Usage>)
    requires
        frames_related(a, b),
    ensures
        usage_of(a) == usage_of(b),
{
    if a != b {
        assert(a == seq![Usage::Direct] + b);
        assert(a.contains(Usage::Dynamic) == b.contains(Usage::Dynamic)) by {
            if a.contains(Usage::Dynamic) {
                let k = choose|k: int| 0 <= k < a.len() && a[k] == Usage::Dynamic;
                assert(b[k - 1] == a[k]);
            }
            if b.contains(Usage::Dynamic) {
                let k = choose|k: int| 0 <= k < b.len() && b[k] == Usage::Dynamic;
                assert(a[k + 1] == b[k]);
            }
        }
        assert(a.contains(Usage::Lookup) == b.contains(Usage::Lookup)) by {
            if a.contains(Usage::Lookup) {
                let k = choose|k: int| 0 <= k < a.len() && a[k] == Usage::Lookup;
                assert(b[k - 1] == a[k]);
            }
            if b.contains(Usage::Lookup) {
                let k = choose|k: int| 0 <= k < b.len() && b[k] == Usage::Lookup;
                assert(a[k + 1] == b[k]);
            }
        }
    }
}

proof fn lemma_word_end_sum(f: Seq<char>, i: int)
    requires
        0 <= i <= f.len(),
    ensures
        word_end(sum_of(f), i + 4) == word_end(f, i) + 4,
    decreases f.len() - i,
{
    lemma_sum_chars(f);
    if i < f.len() {
        assert(sum_of(f)[i + 4] == f[i]);
        if is_word(f[i]) {
            lemma_word_end_sum(f, i + 1);
        }
    }
}

proof fn lemma_range_text_end_sum(f: Seq<char>, i: int)
    requires
        0 <= i <= f.len(),
    ensures
        range_text_end(sum_of(f), i + 4) == range_text_end(f, i) + 4,
{
    lemma_sum_chars(f);
    lemma_word_end(f, i);
    lemma_word_end_sum(f, i);
    let e = word_end(f, i);
    if e + 1 < f.len() {
        assert(sum_of(f)[e + 4] == f[e]);
        assert(sum_of(f)[e + 5] == f[e + 1]);
        lemma_word_end_sum(f, e + 1);
    } else if e + 1 == f.len() {
        assert(sum_of(f)[e + 5] == ')');
    } else {
        assert(sum_of(f)[e + 4] == ')');
    }
}

proof fn lemma_string_end_sum(f: Seq<char>, p: int)
    requires
        0 <= p <= f.len(),
    ensures
        string_end(sum_of(f), p + 4) == string_end(f, p) + 4 || (string_end(f, p) == f.len()
            && string_end(sum_of(f), p + 4) == f.len() + 5),
    decreases f.len() - p,
{
    let g = sum_of(f);
    lemma_sum_chars(f);
    if p == f.len() {
        assert(g[p + 4] == ')');
        assert(string_end(g, p + 5) == p + 5);
    } else {
        assert(g[p + 4] == f[p]);
        if f[p] == '"' {
            if p + 1 < f.len() {
                assert(g[p + 5] == f[p + 1]);
                if f[p + 1] == '"' {
                    lemma_string_end_sum(f, p + 2);
                }
            } else {
                assert(g[p + 5] == ')');
            }
        } else {
            lemma_string_end_sum(f, p + 1);
        }
    }
}

proof fn lemma_quoted_name_sum(f: Seq<char>, p: int)
    requires
        0 <= p <= f.len(),
    ensures
        (quoted_name(sum_of(f), p + 4).0 == quoted_name(f, p).0 && quoted_name(sum_of(f), p + 4).1
            == quoted_name(f, p).1 + 4) || (quoted_name(f, p).1 == f.len() && quoted_name(sum_of(f), p + 4).1
            == f.len() + 5),
    decreases f.len() - p,
{
    let g = sum_of(f);
    lemma_sum_chars(f);
    if p == f.len() {
        assert(g[p + 4] == ')');
        assert(quoted_name(g, p + 5).1 == p + 5);
    } else {
        assert(g[p + 4] == f[p]);
        if f[p] == '\'' {
            if p + 1 < f.len() {
                assert(g[p + 5] == f[p + 1]);
                if f[p + 1] == '\'' {
                    lemma_quoted_name_sum(f, p + 2);
                }
            } else {
                assert(g[p + 5] == ')');
            }
        } else {
            lemma_quoted_name_sum(f, p + 1);
        }
    }
}

proof fn lemma_bracket_end_sum(f: Seq<char>, p: int)
    requires
        0 <= p <= f.len(),
        bracket_end(f, p) < f.len(),
    ensures
        bracket_end(sum_of(f), p + 4) == bracket_end(f, p) + 4,
    decreases f.len() - p,
{
    lemma_sum_chars(f);
    assert(sum_of(f)[p + 4] == f[p]);
    if f[p] != ']' {
        lemma_bracket_end_sum(f, p + 1);
    }
}

proof fn lemma_push_sum(f: Seq<char>, sf: ScanState, sg: ScanState, start: int, sheet: Option<Seq<char>>, text: Seq<char>)
    requires
        sum_related(f, sf, sg),
    ensures
        sum_related(f, push_reference(sf, start, sheet, text), push_reference(sg, start + 4, sheet, text)),
{
    if range_of(text) is Some {
        lemma_usage_related(sg.frames, sf.frames);
        let a = push_reference(sg, start + 4, sheet, text).formula.references;
        let b = push_reference(sf, start, sheet, text).formula.references;
        assert forall|i: int| 0 <= i < a.len() implies #[trigger] a[i] == shifted(b[i], 4) by {
            if i < sg.formula.references.len() {
                assert(a[i] == sg.formula.references[i]);
                assert(b[i] == sf.formula.references[i]);
            }
        }
    }
}

proof fn lemma_sheet_reference_sum(f: Seq<char>, sf: ScanState, sg: ScanState, start: int, sheet: Seq<char>)
    requires
        sum_related(f, sf, sg),
    ensures
        sum_related(f, sheet_reference(f, sf, start, sheet), sheet_reference(sum_of(f), sg, start + 4, sheet)),
{
    let g = sum_of(f);
    lemma_sum_chars(f);
    lemma_range_text_end(f, sf.pos);
    lemma_range_text_end_sum(f, sf.pos);
    let e = range_text_end(f, sf.pos);
    let text = f.subrange(sf.pos, e);
    assert(g.subrange(sf.pos + 4, e + 4) == text);
    if range_of(text) is Some {
        lemma_push_sum(f, sf.at(e), sg.at(e + 4), start, Some(sheet), text);
    }
}

proof fn lemma_external_tail_sum(f: Seq<char>, sf: ScanState, sg: ScanState, name: Seq<char>)
    requires
        sum_related(f, sf, sg),
    ensures
        sum_related(f, external_tail(f, sf, name), external_tail(sum_of(f), sg, name)),
{
    lemma_sum_chars(f);
    lemma_range_text_end(f, sf.pos);
    lemma_range_text_end_sum(f, sf.pos);
    let e = range_text_end(f, sf.pos);
    assert(sum_of(f).subrange(sf.pos + 4, e + 4) == f.subrange(sf.pos, e));
}

/// The step at a quoted name.
proof fn lemma_quoted_step_sum(f: Seq<char>, sf: ScanState, sg: ScanState)
    requires
        sum_related(f, sf, sg),
        sf.pos < f.len(),
    ensures
        sum_related(f, quoted_step(f, sf), quoted_step(sum_of(f), sg)) || sum_done(
            f,
            quoted_step(f, sf),
            quoted_step(sum_of(f), sg),
        ),
{
    let g = sum_of(f);
    let p = sf.pos;
    lemma_sum_chars(f);
    lemma_quoted_name(f, p + 1);
    lemma_quoted_name_sum(f, p + 1);
    let (name, e) = quoted_name(f, p + 1);
    let (gname, ge) = quoted_name(g, p + 5);
    if ge == e + 4 && gname == name {
        if e < f.len() {
            assert(g[e + 4] == f[e]);
            if f[e] == '!' {
                if name.len() > 0 && name[0] == '[' {
                    lemma_external_tail_sum(f, sf.at(e + 1), sg.at(e + 5), name);
                } else {
                    lemma_sheet_reference_sum(f, sf.at(e + 1), sg.at(e + 5), p, name);
                }
            }
        } else {
            assert(g[e + 4] == ')');
        }
    }
}

/// The step at `[`.
proof fn lemma_external_step_sum(f: Seq<char>, sf: ScanState, sg: ScanState)
    requires
        sum_related(f, sf, sg),
        sf.pos < f.len(),
        bracket_end(f, sf.pos) < f.len(),
    ensures
        sum_related(f, external_step(f, sf), external_step(sum_of(f), sg)),
{
    let g = sum_of(f);
    let p = sf.pos;
    lemma_sum_chars(f);
    lemma_bracket_end(f, p);
    lemma_bracket_end_sum(f, p);
    let k = bracket_end(f, p);
    lemma_word_end(f, k + 1);
    lemma_word_end_sum(f, k + 1);
    let e = word_end(f, k + 1);
    assert(g.subrange(p + 4, e + 4) == f.subrange(p, e));
    if e < f.len() {
        assert(g[e + 4] == f[e]);
        if f[e] == '!' {
            lemma_external_tail_sum(f, sf.at(e + 1), sg.at(e + 5), f.subrange(p, e));
        }
    } else {
        assert(g[e + 4] == ')');
    }
}

/// The step at `#`.
proof fn lemma_error_literal_sum(f: Seq<char>, sf: ScanState, sg: ScanState)
    requires
        sum_related(f, sf, sg),
        sf.pos < f.len(),
    ensures
        sum_related(f, error_literal_step(f, sf), error_literal_step(sum_of(f), sg)),
{
    let g = sum_of(f);
    let p = sf.pos;
    lemma_sum_chars(f);
    lemma_word_end(f, p + 1);
    lemma_word_end_sum(f, p + 1);
    let e1 = word_end(f, p + 1);
    if e1 < f.len() {
        assert(g[e1 + 4] == f[e1]);
    } else {
        assert(g[e1 + 4] == ')');
    }
    let p2 = if e1 < f.len() && f[e1] == '!' { e1 + 1 } else { e1 };
    if p2 < f.len() {
        assert(g[p2 + 4] == f[p2]);
    } else {
        assert(g[p2 + 4] == ')');
    }
    let p3 = if p2 < f.len() && f[p2] == '/' { p2 + 1 } else { p2 };
    lemma_word_end(f, p3);
    lemma_word_end_sum(f, p3);
}

/// The step at a word character.
proof fn lemma_word_step_sum(f: Seq<char>, sf: ScanState, sg: ScanState)
    requires
        sum_related(f, sf, sg),
        sf.pos < f.len(),
        is_word(f[sf.pos]),
    ensures
        sum_related(f, word_step(f, sf), word_step(sum_of(f), sg)),
{
    let g = sum_of(f);
    let p = sf.pos;
    lemma_sum_chars(f);
    lemma_word_end(f, p);
    lemma_word_end_sum(f, p);
    let e = word_end(f, p);
    let w = f.subrange(p, e);
    assert(g.subrange(p + 4, e + 4) == w);
    if e < f.len() {
        assert(g[e + 4] == f[e]);
    } else {
        assert(g[e + 4] == ')');
    }
    if e < f.len() && f[e] == '!' {
        lemma_sheet_reference_sum(f, sf.at(e + 1), sg.at(e + 5), p, w);
    } else if e < f.len() && f[e] == '(' {
        let fr = frame_of(w);
        let sf2 = if fr == Usage::Dynamic { sf.unresolved(w) } else { sf };
        let sg2 = if fr == Usage::Dynamic { sg.unresolved(w) } else { sg };
        if sg.frames == seq![Usage::Direct] + sf.frames {
            assert(sg2.frames.push(fr) =~= seq![Usage::Direct] + sf2.frames.push(fr));
        }
    } else {
        lemma_range_text_end(f, p);
        lemma_range_text_end_sum(f, p);
        let e2 = range_text_end(f, p);
        let text = f.subrange(p, e2);
        assert(g.subrange(p + 4, e2 + 4) == text);
        if range_of(text) is Some {
            lemma_push_sum(f, sf.at(e2), sg.at(e2 + 4), p, None, text);
        }
    }
}

/// One step of the scanner on a formula and on the formula in `SUM( )`.
proof fn lemma_step_sum(f: Seq<char>, sf: ScanState, sg: ScanState)
    requires
        sum_related(f, sf, sg),
        sf.pos < f.len(),
        f[sf.pos] == '[' ==> bracket_end(f, sf.pos) < f.len(),
    ensures
        sum_related(f, step(f, sf), step(sum_of(f), sg)) || sum_done(f, step(f, sf), step(sum_of(f), sg)),
{
    let g = sum_of(f);
    let p = sf.pos;
    lemma_sum_chars(f);
    assert(g[p + 4] == f[p]);
    let c = f[p];
    if c == '"' {
        lemma_string_end(f, p + 1);
        lemma_string_end_sum(f, p + 1);
    } else if c == '\'' {
        lemma_quoted_step_sum(f, sf, sg);
    } else if c == '[' {
        lemma_external_step_sum(f, sf, sg);
    } else if c == '#' {
        lemma_error_literal_sum(f, sf, sg);
    } else if c == '(' {
        if sg.frames == seq![Usage::Direct] + sf.frames {
            assert(sg.frames.push(Usage::Direct) =~= seq![Usage::Direct] + sf.frames.push(Usage::Direct));
        }
    } else if c == ')' {
        if sg.frames == seq![Usage::Direct] + sf.frames {
            if sf.frames.len() > 0 {
                assert(sg.frames.drop_last() =~= seq![Usage::Direct] + sf.frames.drop_last());
            } else {
                assert(sg.frames.drop_last() =~= sf.frames);
            }
        }
    } else if is_word(c) {
        lemma_word_step_sum(f, sf, sg);
    }
}

proof fn lemma_scan_sum(f: Seq<char>, sf: ScanState, sg: ScanState)
    requires
        sum_related(f, sf, sg),
        brackets_closed(f, sf),
    ensures
        formulas_shifted(scan(sum_of(f), sg).formula, scan(f, sf).formula, 4),
    decreases f.len() - sf.pos,
{
    let g = sum_of(f);
    lemma_sum_chars(f);
    assert(0 <= sg.pos < g.len());
    lemma_step_advances(g, sg);
    assert(scan(g, sg) == scan(g, step(g, sg)));
    if sf.pos < f.len() {
        lemma_step_advances(f, sf);
        lemma_step_sum(f, sf, sg);
        let nf = step(f, sf);
        let ng = step(g, sg);
        assert(scan(f, sf) == scan(f, nf));
        if sum_related(f, nf, ng) {
            lemma_scan_sum(f, nf, ng);
        } else {
            assert(scan(f, nf) == nf);
            assert(scan(g, ng) == ng);
        }
    } else {
        assert(scan(f, sf) == sf);
        assert(g[sg.pos] == ')');
        let ng = step(g, sg);
        assert(ng.pos == g.len());
        assert(scan(g, ng) == ng);
    }
}

/// The function name `SUM` keeps references as they are used.
proof fn lemma_sum_frame()
    ensures
        frame_of(seq!['S', 'U', 'M']) == Usage::Direct,
{
    let name = seq!['S', 'U', 'M'];
    assert(after_dot(name, 0) == 0);
    assert(after_dot(name, 1) == 0);
    assert(after_dot(name, 2) == 0);
    assert(after_dot(name, 3) == 0);
    let u = ascii_upper(name.skip(0));
    assert(u =~= name);
    reveal_strlit("VLOOKUP");
    reveal_strlit("HLOOKUP");
    reveal_strlit("XLOOKUP");
    reveal_strlit("LOOKUP");
    reveal_strlit("MATCH");
    reveal_strlit("XMATCH");
    reveal_strlit("INDEX");
    reveal_strlit("COUNTIF");
    reveal_strlit("COUNTIFS");
    reveal_strlit("SUMIF");
    reveal_strlit("SUMIFS");
    reveal_strlit("AVERAGEIF");
    reveal_strlit("AVERAGEIFS");
    reveal_strlit("OFFSET");
    reveal_strlit("INDIRECT");
    assert(u.len() == 3);
    assert(u != "SUMIF"@) by {
        assert("SUMIF"@.len() == 5);
    }
}

/// Wrapping a formula in `SUM( )` changes nothing but the positions: the
/// references are the same, in the same order, with the same sheets, ranges and
/// usages, each four characters later, and the unresolved terms are the same.
/// This holds of every formula whose scan meets no `[` without a later `]`.
pub proof fn lemma_sum_wrapping(text: Seq<char>)
    requires
        brackets_closed(formula_body(text), initial_state()),
    ensures
        formulas_shifted(parsed(sum_of(formula_body(text))), parsed(text), 4),
{
    let f = formula_body(text);
    let g = sum_of(f);
    lemma_sum_chars(f);
    assert(skip_ws(g, 0) == 0);
    assert(trim_end_at(g, 0, g.len() as int) == g.len());
    assert(trim(g) =~= g);
    assert(skip_eq(g, 0) == 0);
    assert(formula_body(g) =~= g);
    let st0 = initial_state();
    lemma_step_advances(g, st0);
    assert(scan(g, st0) == scan(g, step(g, st0)));
    assert(is_word(g[0]));
    assert(word_end(g, 3) == 3);
    assert(word_end(g, 2) == 3);
    assert(word_end(g, 1) == 3);
    assert(word_end(g, 0) == 3);
    assert(g.subrange(0, 3) =~= seq!['S', 'U', 'M']);
    lemma_sum_frame();
    let sg = step(g, st0);
    assert(sg.pos == 4);
    assert(sg.frames =~= seq![Usage::Direct] + st0.frames);
    assert(sg.formula == st0.formula);
    lemma_scan_sum(f, st0, sg);
}

// ---------------------------------------------------------------------------
// Function calls.

/// The functions whose range arguments identify students by a lookup key:
/// `VLOOKUP`, `HLOOKUP`, `XLOOKUP`, `LOOKUP`, `MATCH`, `XMATCH`, `INDEX`,
/// `COUNTIF`, `COUNTIFS`, `SUMIF`, `SUMIFS`, `AVERAGEIF` and `AVERAGEIFS`, in any
/// case and after a prefix such as `_xlfn.`, make lookup calls; `OFFSET` and
/// `INDIRECT` make calls whose referring cells are determined at runtime; and the
/// other functions, such as `SUM` and `IF`, use their references directly.
pub proof fn lemma_function_frames(w: Seq<char>)
    ensures
        ({
            let u = ascii_upper(w.skip(after_dot(w, w.len() as int)));
            &&& (u == "VLOOKUP"@ || u == "HLOOKUP"@ || u == "XLOOKUP"@ || u == "LOOKUP"@ || u == "MATCH"@
                || u == "XMATCH"@ || u == "INDEX"@ || u == "COUNTIF"@ || u == "COUNTIFS"@ || u == "SUMIF"@
                || u == "SUMIFS"@ || u == "AVERAGEIF"@ || u == "AVERAGEIFS"@) ==> frame_of(w) == Usage::Lookup
            &&& (u == "OFFSET"@ || u == "INDIRECT"@) ==> frame_of(w) == Usage::Dynamic
            &&& (u == "SUM"@ || u == "IF"@ || u == "TEXT"@) ==> frame_of(w) == Usage::Direct
        }),
{
    reveal_strlit("VLOOKUP");
    reveal_strlit("HLOOKUP");
    reveal_strlit("XLOOKUP");
    reveal_strlit("LOOKUP");
    reveal_strlit("MATCH");
    reveal_strlit("XMATCH");
    reveal_strlit("INDEX");
    reveal_strlit("COUNTIF");
    reveal_strlit("COUNTIFS");
    reveal_strlit("SUMIF");
    reveal_strlit("SUMIFS");
    reveal_strlit("AVERAGEIF");
    reveal_strlit("AVERAGEIFS");
    reveal_strlit("OFFSET");
    reveal_strlit("INDIRECT");
    reveal_strlit("SUM");
    reveal_strlit("IF");
    reveal_strlit("TEXT");
    let u = ascii_upper(w.skip(after_dot(w, w.len() as int)));
    if u == "OFFSET"@ || u == "INDIRECT"@ || u == "SUM"@ || u == "IF"@ || u == "TEXT"@ {
        assert(u.len() >= 2);
        assert(!is_lookup_function(u)) by {
            if u == "INDIRECT"@ {
                assert(u[2] == 'D');
            }
            assert(u[0] != 'V' && u[0] != 'H' && u[0] != 'X' && u[0] != 'L' && u[0] != 'M' && u[0] != 'C'
                && u[0] != 'A');
            assert(u[0] == 'S' ==> u.len() == 3);
            assert(u[0] == 'I' ==> u.len() == 8 || u.len() == 2);
        }
    }
}

/// The characters are all word characters.
pub open spec fn all_word(s: Seq<char>) -> bool {
    forall|k: int| 0 <= k < s.len() ==> is_word(#[trigger] s[k])
}

/// A word from `i` to `j` ends at `j`.
proof fn lemma_word_end_run(s: Seq<char>, i: int, j: int)
    requires
        0 <= i <= j <= s.len(),
        forall|k: int| i <= k < j ==> is_word(#[trigger] s[k]),
        j == s.len() || !is_word(s[j]),
    ensures
        word_end(s, i) == j,
    decreases j - i,
{
    if i < j {
        lemma_word_end_run(s, i + 1, j);
    }
}

/// The text of a range argument: one word, or two words around `:`.
pub open spec fn range_argument(a: Seq<char>, b: Seq<char>) -> Seq<char> {
    if b.len() == 0 {
        a
    } else {
        a + seq![':'] + b
    }
}

/// A call of a function on a range, such as `SUMIF(A:A)` or `VLOOKUP(A2:E8)`, gives
/// the range as its one reference, in the sheet of the formula, used as the
/// function uses its arguments; a function such as `OFFSET` is also recorded as
/// unresolved.
pub proof fn lemma_call_reference(w: Seq<char>, a: Seq<char>, b: Seq<char>)
    requires
        w.len() > 0,
        all_word(w),
        a.len() > 0,
        all_word(a),
        all_word(b),
        range_of(range_argument(a, b)) is Some,
    ensures
        ({
            let x = range_argument(a, b);
            let f = parsed(w + seq!['('] + x + seq![')']);
            &&& f.references == seq![
                RefView {
                    sheet: None,
                    range: range_of(x)->0,
                    usage: frame_of(w),
                    start: w.len() + 1int,
                    end: w.len() + 1int + x.len(),
                },
            ]
            &&& f.unresolved == if frame_of(w) == Usage::Dynamic {
                seq![w]
            } else {
                Seq::empty()
            }
        }),
{
    let x = range_argument(a, b);
    let s = w + seq!['('] + x + seq![')'];
    let n = w.len() as int;
    let p = n + 1;
    let q = p + x.len();
    assert(s.len() == q + 1);
    assert forall|k: int| 0 <= k < n implies #[trigger] s[k] == w[k] by {}
    assert(s[n] == '(');
    assert forall|k: int| 0 <= k < x.len() implies #[trigger] s[p + k] == x[k] by {}
    assert(s[q] == ')');
    // The text is its own formula body.
    assert(is_word(s[0]));
    assert(!is_white_space(s[0]) && s[0] != '=');
    assert(skip_ws(s, 0) == 0);
    assert(trim_end_at(s, 0, s.len() as int) == s.len());
    assert(trim(s) =~= s);
    assert(skip_eq(s, 0) == 0);
    assert(formula_body(s) =~= s);
    // The function name.
    let st0 = initial_state();
    lemma_word_end_run(s, 0, n);
    assert(s.subrange(0, n) =~= w);
    let fr = frame_of(w);
    let st1 = step(s, st0);
    lemma_step_advances(s, st0);
    assert(scan(s, st0) == scan(s, st1));
    assert(st1.pos == p);
    assert(st1.frames =~= seq![fr]);
    assert(st1.formula.references =~= Seq::<RefView>::empty());
    assert(st1.formula.unresolved =~= if fr == Usage::Dynamic { seq![w] } else { Seq::<Seq<char>>::empty() });
    // The range.
    let e = p + a.len();
    assert forall|k: int| p <= k < e implies is_word(#[trigger] s[k]) by {
        assert(s[k] == x[k - p]);
        assert(x[k - p] == a[k - p]);
    }
    if b.len() == 0 {
        assert(s[e] == ')');
    } else {
        assert(s[e] == x[a.len() as int]);
        assert(x[a.len() as int] == ':');
        assert(s[e + 1] == x[a.len() + 1int]);
        assert(x[a.len() + 1int] == b[0]);
        assert forall|k: int| e + 1 <= k < q implies is_word(#[trigger] s[k]) by {
            assert(s[k] == x[k - p]);
            assert(x[k - p] == b[k - p - a.len() - 1]);
        }
        lemma_word_end_run(s, e + 1, q);
    }
    lemma_word_end_run(s, p, e);
    assert(range_text_end(s, p) == q);
    assert(s.subrange(p, q) =~= x);
    assert(is_word(s[p])) by {
        assert(s[p] == x[0]);
        assert(x[0] == a[0]);
    }
    let st2 = step(s, st1);
    lemma_step_advances(s, st1);
    assert(scan(s, st1) == scan(s, st2));
    assert(usage_of(seq![fr]) == fr) by {
        assert(seq![fr][0] == fr);
    }
    assert(st2.pos == q);
    // The closing parenthesis.
    let st3 = step(s, st2);
    lemma_step_advances(s, st2);
    assert(scan(s, st2) == scan(s, st3));
    assert(st3.pos == s.len());
    assert(scan(s, st3) == st3);
}

/// The range argument of a call of a lookup function (`SUMIF(A:A)`,
/// `_xlfn.xlookup(A2)`, ...) is used as a lookup.
pub proof fn lemma_lookup_call_reference(w: Seq<char>, a: Seq<char>, b: Seq<char>)
    requires
        w.len() > 0,
        all_word(w),
        a.len() > 0,
        all_word(a),
        all_word(b),
        range_of(range_argument(a, b)) is Some,
        ({
            let u = ascii_upper(w.skip(after_dot(w, w.len() as int)));
            u == "VLOOKUP"@ || u == "HLOOKUP"@ || u == "XLOOKUP"@ || u == "LOOKUP"@ || u == "MATCH"@
                || u == "XMATCH"@ || u == "INDEX"@ || u == "COUNTIF"@ || u == "COUNTIFS"@ || u == "SUMIF"@
                || u == "SUMIFS"@ || u == "AVERAGEIF"@ || u == "AVERAGEIFS"@
        }),
    ensures
        parsed(w + seq!['('] + range_argument(a, b) + seq![')']).references.len() == 1,
        parsed(w + seq!['('] + range_argument(a, b) + seq![')']).references[0].usage == Usage::Lookup,
        parsed(w + seq!['('] + range_argument(a, b) + seq![')']).unresolved.len() == 0,
{
    lemma_function_frames(w);
    lemma_call_reference(w, a, b);
}

// ---------------------------------------------------------------------------
// The scanner.

/// The kind of a parenthesized group (a function call or a plain group).
#[derive(Debug, Clone, Copy, PartialEq, Eq, Structural)]
enum Frame {
    /// A plain group, or a call of other functions.
    Plain,
    /// A call of a lookup function.
    Lookup,
    /// A call of `OFFSET` or `INDIRECT`.
    Dynamic,
}

impl Frame {
    /// The usage of references inside the group.
    spec fn usage(self) -> Usage {
        match self {
            Frame::Plain => Usage::Direct,
            Frame::Lookup => Usage::Lookup,
            Frame::Dynamic => Usage::Dynamic,
        }
    }

    /// Returns the frame of the function (the prefixes such as `_xlfn.` are ignored).
    fn of(function: &[char]) -> (r: Self)
        ensures
            r.usage() == frame_of(function@),
    {
        let mut j = function.len();
        while j > 0 && function[j - 1] != '.'
            invariant
                j <= function.len(),
                after_dot(function@, j as int) == after_dot(function@, function.len() as int),
            decreases j,
        {
            j -= 1;
        }
        let base = slice_chars(function, j, function.len());
        assert(base@ == function@.skip(after_dot(function@, function.len() as int)));
        let name = to_upper(&base);
        if is_lookup_name(&name) {
            Frame::Lookup
        } else if chars_eq(&name, &chars_of("OFFSET")) || chars_eq(&name, &chars_of("INDIRECT")) {
            Frame::Dynamic
        } else {
            Frame::Plain
        }
    }
}

fn is_lookup_name(u: &[char]) -> (r: bool)
    ensures
        r == is_lookup_function(u@),
{
    chars_eq(u, &chars_of("VLOOKUP")) || chars_eq(u, &chars_of("HLOOKUP")) || chars_eq(
        u,
        &chars_of("XLOOKUP"),
    ) || chars_eq(u, &chars_of("LOOKUP")) || chars_eq(u, &chars_of("MATCH")) || chars_eq(
        u,
        &chars_of("XMATCH"),
    ) || chars_eq(u, &chars_of("INDEX")) || chars_eq(u, &chars_of("COUNTIF")) || chars_eq(
        u,
        &chars_of("COUNTIFS"),
    ) || chars_eq(u, &chars_of("SUMIF")) || chars_eq(u, &chars_of("SUMIFS")) || chars_eq(
        u,
        &chars_of("AVERAGEIF"),
    ) || chars_eq(u, &chars_of("AVERAGEIFS"))
}

/// The characters in upper case (ASCII letters only).
pub fn to_upper(s: &[char]) -> (r: Vec<char>)
    ensures
        r@ == ascii_upper(s@),
{
    let mut r: Vec<char> = Vec::new();
    let mut i: usize = 0;
    while i < s.len()
        invariant
            i <= s.len(),
            r@ == ascii_upper(s@.take(i as int)),
        decreases s.len() - i,
    {
        let c = s[i];
        let u = if 'a' <= c && c <= 'z' { ((c as u32) - 32) as u8 as char } else { c };
        assert(u == upper_char(c));
        r.push(u);
        i += 1;
        assert(r@ =~= ascii_upper(s@.take(i as int)));
    }
    assert(s@.take(s.len() as int) =~= s@);
    r
}

/// Returns true if the character can be a part of a word.
fn is_word_char(c: char) -> (r: bool)
    ensures
        r == is_word(c),
{
    !is_whitespace(c) && !(c == '+' || c == '-' || c == '*' || c == '/' || c == '^' || c == '&'
        || c == '=' || c == '<' || c == '>' || c == '(' || c == ')' || c == ',' || c == ';' || c
        == ':' || c == '!' || c == '{' || c == '}' || c == '%' || c == '"' || c == '\'' || c
        == '[' || c == ']' || c == '#')
}

/// Returns true if the term looks like a defined name (not a number or a boolean).
fn is_name_term(text: &[char]) -> (r: bool)
    ensures
        r == is_name(text@),
{
    if text.len() == 0 {
        return false;
    }
    let c = text[0];
    if ('0' <= c && c <= '9') || c == '.' {
        return false;
    }
    let u = to_upper(text);
    !chars_eq(&u, &chars_of("TRUE")) && !chars_eq(&u, &chars_of("FALSE"))
}

/// A hand-written scanner of formulas, which tracks the enclosing functions.
struct Parser {
    /// The characters of the formula without the leading `=`.
    chars: Vec<char>,
    /// The current position in `chars`.
    pos: usize,
    /// The enclosing groups, the innermost last.
    frames: Vec<Frame>,
    /// The result being built.
    formula: Formula,
}

impl Parser {
    spec fn state(&self) -> ScanState {
        ScanState {
            pos: self.pos as int,
            frames: self.frames@.map_values(|f: Frame| f.usage()),
            formula: self.formula@,
        }
    }

    /// Creates a parser of the formula (with or without the leading `=`).
    fn new(text: &str) -> (r: Self)
        ensures
            r.chars@ == formula_body(text@),
            r.state() == initial_state(),
    {
        let t = trim_chars(&chars_of(text));
        let mut k: usize = 0;
        while k < t.len() && t[k] == '='
            invariant
                k <= t.len(),
                skip_eq(t@, k as int) == skip_eq(t@, 0),
            decreases t.len() - k,
        {
            k += 1;
        }
        let chars = slice_chars(&t, k, t.len());
        assert(chars@ =~= t@.skip(k as int));
        let r = Self {
            chars,
            pos: 0,
            frames: Vec::new(),
            formula: Formula { references: Vec::new(), unresolved: Vec::new() },
        };
        assert(r.frames@.map_values(|f: Frame| f.usage()) =~= Seq::<Usage>::empty());
        assert(r.formula@.references =~= Seq::<RefView>::empty());
        assert(r.formula@.unresolved =~= Seq::<Seq<char>>::empty());
        r
    }

    /// Scans the rest of the formula.
    fn run_to_end(&mut self)
        requires
            old(self).pos <= old(self).chars.len(),
        ensures
            final(self).formula@ == scan(old(self).chars@, old(self).state()).formula,
    {
        let ghost s = self.chars@;
        let ghost target = scan(s, self.state());
        assert(target == scan(old(self).chars@, old(self).state()));
        while self.pos < self.chars.len()
            invariant
                self.chars@ == s,
                self.pos <= s.len(),
                scan(s, self.state()) == target,
                target == scan(old(self).chars@, old(self).state()),
            decreases s.len() - self.pos,
        {
            let ghost before = self.state();
            proof {
                lemma_step_advances(s, before);
            }
            let c = self.chars[self.pos];
            if c == '"' {
                self.skip_string();
            } else if c == '\'' {
                self.quoted_sheet();
            } else if c == '[' {
                proof {
                    lemma_bracket_end(s, before.pos);
                }
                if self.has_bracket() {
                    self.external_reference();
                } else {
                    self.unclosed_external();
                }
            } else if c == '#' {
                self.skip_error_literal();
            } else if c == '(' {
                self.open(Frame::Plain);
            } else if c == ')' {
                self.close();
            } else if is_word_char(c) {
                self.word();
            } else {
                self.pos += 1;
            }
            assert(self.state() == step(s, before));
        }
        assert(scan(s, self.state()) == self.state());
    }

    /// Returns true if there is `]` at or after the current position.
    fn has_bracket(&self) -> (r: bool)
        requires
            self.pos <= self.chars.len(),
        ensures
            r == (bracket_end(self.chars@, self.pos as int) < self.chars.len()),
    {
        let mut k = self.pos;
        while k < self.chars.len() && self.chars[k] != ']'
            invariant
                self.pos <= k <= self.chars.len(),
                bracket_end(self.chars@, k as int) == bracket_end(self.chars@, self.pos as int),
            decreases self.chars.len() - k,
        {
            k += 1;
        }
        k < self.chars.len()
    }

    /// Consumes the character if it is the current one.
    fn eat(&mut self, c: char) -> (matched: bool)
        requires
            old(self).pos <= old(self).chars.len(),
        ensures
            final(self).chars == old(self).chars,
            final(self).frames == old(self).frames,
            final(self).formula == old(self).formula,
            matched == (old(self).pos < old(self).chars.len() && old(self).chars@[old(
                self,
            ).pos as int] == c),
            final(self).pos == if matched { old(self).pos + 1 } else { old(self).pos as int },
    {
        let matched = self.pos < self.chars.len() && self.chars[self.pos] == c;
        if matched {
            self.pos += 1;
        }
        matched
    }

    /// Consumes and returns the word characters at the current position.
    fn read_word(&mut self) -> (w: Vec<char>)
        requires
            old(self).pos <= old(self).chars.len(),
        ensures
            final(self).chars == old(self).chars,
            final(self).frames == old(self).frames,
            final(self).formula == old(self).formula,
            final(self).pos == word_end(old(self).chars@, old(self).pos as int),
            w@ == old(self).chars@.subrange(old(self).pos as int, final(self).pos as int),
    {
        let start = self.pos;
        while self.pos < self.chars.len() && is_word_char(self.chars[self.pos])
            invariant
                self.chars == old(self).chars,
                self.frames == old(self).frames,
                self.formula == old(self).formula,
                start == old(self).pos,
                start <= self.pos <= self.chars.len(),
                word_end(self.chars@, self.pos as int) == word_end(self.chars@, start as int),
            decreases self.chars.len() - self.pos,
        {
            self.pos += 1;
        }
        slice_chars(&self.chars, start, self.pos)
    }

    /// Enters a group.
    fn open(&mut self, frame: Frame)
        requires
            old(self).pos < old(self).chars.len(),
        ensures
            final(self).chars == old(self).chars,
            final(self).state() == (ScanState {
                pos: old(self).pos + 1,
                frames: old(self).state().frames.push(frame.usage()),
                ..old(self).state()
            }),
    {
        self.pos += 1;
        self.frames.push(frame);
        assert(self.frames@.map_values(|f: Frame| f.usage()) =~= old(self).frames@.map_values(
            |f: Frame| f.usage(),
        ).push(frame.usage()));
    }

    /// Leaves a group.
    fn close(&mut self)
        requires
            old(self).pos < old(self).chars.len(),
        ensures
            final(self).chars == old(self).chars,
            final(self).state() == (ScanState {
                pos: old(self).pos + 1,
                frames: if old(self).state().frames.len() > 0 {
                    old(self).state().frames.drop_last()
                } else {
                    old(self).state().frames
                },
                ..old(self).state()
            }),
    {
        self.pos += 1;
        if self.frames.len() > 0 {
            self.frames.pop();
            assert(self.frames@.map_values(|f: Frame| f.usage()) =~= old(self).frames@.map_values(
                |f: Frame| f.usage(),
            ).drop_last());
        }
    }

    /// Returns the usage of references at the current position from the enclosing groups.
    fn usage(&self) -> (u: Usage)
        ensures
            u == usage_of(self.state().frames),
    {
        let ghost fs = self.state().frames;
        let mut dynamic = false;
        let mut lookup = false;
        let mut i: usize = 0;
        while i < self.frames.len()
            invariant
                i <= self.frames.len(),
                fs == self.frames@.map_values(|f: Frame| f.usage()),
                dynamic == exists|k: int| 0 <= k < i && fs[k] == Usage::Dynamic,
                lookup == exists|k: int| 0 <= k < i && fs[k] == Usage::Lookup,
            decreases self.frames.len() - i,
        {
            let f = self.frames[i];
            assert(fs[i as int] == f.usage());
            if f == Frame::Dynamic {
                dynamic = true;
            }
            if f == Frame::Lookup {
                lookup = true;
            }
            i += 1;
        }
        if dynamic {
            assert(fs.contains(Usage::Dynamic));
            Usage::Dynamic
        } else if lookup {
            assert(fs.contains(Usage::Lookup));
            Usage::Lookup
        } else {
            Usage::Direct
        }
    }
}

impl Parser {
    /// Records a reference.
    fn add_reference(&mut self, r: Reference)
        ensures
            final(self).chars == old(self).chars,
            final(self).state() == old(self).state().reference(r@),
    {
        self.formula.references.push(r);
        assert(self.formula.references@.map_values(|r: Reference| r@) =~= old(
            self,
        ).formula.references@.map_values(|r: Reference| r@).push(r@));
    }

    /// Records an unresolved term.
    fn add_unresolved(&mut self, term: &[char])
        ensures
            final(self).chars == old(self).chars,
            final(self).state() == old(self).state().unresolved(term@),
    {
        let t = string_of(term);
        self.formula.unresolved.push(t);
        assert(self.formula.unresolved@.map_values(|u: String| u@) =~= old(
            self,
        ).formula.unresolved@.map_values(|u: String| u@).push(term@));
    }

    /// Skips a string literal (`""` is an escaped quote).
    fn skip_string(&mut self)
        requires
            old(self).pos < old(self).chars.len(),
        ensures
            final(self).chars == old(self).chars,
            final(self).state() == old(self).state().at(
                string_end(old(self).chars@, old(self).pos + 1),
            ),
    {
        let ghost s = self.chars@;
        self.pos += 1;
        while self.pos < self.chars.len()
            invariant_except_break
                string_end(s, self.pos as int) == string_end(s, old(self).pos + 1),
            invariant
                self.chars@ == s,
                self.chars == old(self).chars,
                self.frames == old(self).frames,
                self.formula == old(self).formula,
                old(self).pos < self.pos <= self.chars.len(),
            ensures
                self.pos == string_end(s, old(self).pos + 1),
            decreases self.chars.len() - self.pos,
        {
            let c = self.chars[self.pos];
            self.pos += 1;
            if c == '"' && !self.eat('"') {
                break;
            }
        }
    }

    /// Skips an error literal such as `#N/A` and `#REF!`.
    fn skip_error_literal(&mut self)
        requires
            old(self).pos < old(self).chars.len(),
        ensures
            final(self).chars == old(self).chars,
            final(self).state() == error_literal_step(old(self).chars@, old(self).state()),
    {
        self.pos += 1;
        self.read_word();
        proof {
            lemma_word_end(self.chars@, old(self).pos + 1);
        }
        self.eat('!');
        self.eat('/');
        self.read_word();
    }

    /// Reads `A1`, `A1:B2`, `C:C`, or `2:5` at the current position.
    fn read_range_text(&mut self) -> (t: Vec<char>)
        requires
            old(self).pos <= old(self).chars.len(),
        ensures
            final(self).chars == old(self).chars,
            final(self).frames == old(self).frames,
            final(self).formula == old(self).formula,
            final(self).pos == range_text_end(old(self).chars@, old(self).pos as int),
            t@ == old(self).chars@.subrange(old(self).pos as int, final(self).pos as int),
    {
        let ghost s = self.chars@;
        let start = self.pos;
        let mut text = self.read_word();
        proof {
            lemma_word_end(s, start as int);
        }
        let save = self.pos;
        if self.pos < self.chars.len() && self.pos + 1 < self.chars.len() && self.chars[self.pos] == ':' && is_word_char(
            self.chars[self.pos + 1],
        ) {
            self.pos += 1;
            let rest = self.read_word();
            proof {
                lemma_word_end(s, save + 1);
            }
            text.push(':');
            append(&mut text, &rest);
            assert(text@ =~= s.subrange(start as int, self.pos as int));
        }
        text
    }

    /// Records the reference from `start` to the current position.
    fn push_reference(&mut self, start: usize, sheet: Option<String>, text: &[char])
        ensures
            final(self).chars == old(self).chars,
            final(self).state() == push_reference(old(self).state(), start as int, opt_view(sheet), text@),
    {
        if let Some(range) = CellRange::parse_chars(text) {
            let usage = self.usage();
            let r = Reference { sheet, range, usage, span: (start, self.pos) };
            self.add_reference(r);
        }
    }

    /// Reads a term without a sheet name: a local reference, a named range, or a literal.
    fn local_term(&mut self)
        requires
            old(self).pos <= old(self).chars.len(),
        ensures
            final(self).chars == old(self).chars,
            final(self).state() == local_term(old(self).chars@, old(self).state()),
    {
        let start = self.pos;
        let text = self.read_range_text();
        if CellRange::parse_chars(&text).is_some() {
            self.push_reference(start, None, &text);
        } else if is_name_term(&text) {
            self.add_unresolved(&text);
        }
    }

    /// Reads the cell part after `<sheet>!`. Non-cell terms (e.g., sheet-level names)
    /// are recorded as unresolved.
    fn sheet_reference(&mut self, start: usize, sheet: Vec<char>)
        requires
            old(self).pos <= old(self).chars.len(),
        ensures
            final(self).chars == old(self).chars,
            final(self).state() == sheet_reference(
                old(self).chars@,
                old(self).state(),
                start as int,
                sheet@,
            ),
    {
        let text = self.read_range_text();
        if CellRange::parse_chars(&text).is_some() {
            self.push_reference(start, Some(string_of(&sheet)), &text);
        } else {
            let mut term = sheet;
            term.push('!');
            append(&mut term, &text);
            assert(term@ =~= sheet@ + seq!['!'] + text@);
            self.add_unresolved(&term);
        }
    }

    /// Reads the cell part of an external reference, and records it as unresolved.
    fn external_tail(&mut self, name: Vec<char>)
        requires
            old(self).pos <= old(self).chars.len(),
        ensures
            final(self).chars == old(self).chars,
            final(self).state() == external_tail(old(self).chars@, old(self).state(), name@),
    {
        let range = self.read_range_text();
        let mut term = name;
        term.push('!');
        append(&mut term, &range);
        assert(term@ =~= name@ + seq!['!'] + range@);
        self.add_unresolved(&term);
    }

    /// Reads a word, and dispatches it as a sheet name, a function name, or a local term.
    fn word(&mut self)
        requires
            old(self).pos < old(self).chars.len(),
        ensures
            final(self).chars == old(self).chars,
            final(self).state() == word_step(old(self).chars@, old(self).state()),
    {
        let ghost s = self.chars@;
        let start = self.pos;
        let word = self.read_word();
        proof {
            lemma_word_end(s, start as int);
        }
        if self.eat('!') {
            self.sheet_reference(start, word);
        } else if self.pos < self.chars.len() && self.chars[self.pos] == '(' {
            self.function(word);
        } else {
            self.pos = start;
            self.local_term();
        }
    }

    /// Enters the call of the function. Dynamic functions are recorded as unresolved.
    fn function(&mut self, name: Vec<char>)
        requires
            old(self).pos < old(self).chars.len(),
        ensures
            final(self).chars == old(self).chars,
            final(self).state() == ({
                let f = frame_of(name@);
                let st2 = if f == Usage::Dynamic {
                    old(self).state().unresolved(name@)
                } else {
                    old(self).state()
                };
                ScanState { pos: old(self).pos + 1, frames: st2.frames.push(f), ..st2 }
            }),
    {
        let frame = Frame::of(&name);
        if frame == Frame::Dynamic {
            self.add_unresolved(&name);
        }
        self.open(frame);
    }

    /// Reads a quoted sheet name (`''` is an escaped quote) and the following reference.
    fn quoted_sheet(&mut self)
        requires
            old(self).pos < old(self).chars.len(),
        ensures
            final(self).chars == old(self).chars,
            final(self).state() == quoted_step(old(self).chars@, old(self).state()),
    {
        let ghost s = self.chars@;
        let start = self.pos;
        self.pos += 1;
        let mut name: Vec<char> = Vec::new();
        while self.pos < self.chars.len()
            invariant_except_break
                quoted_name(s, start + 1) == ({
                    let (n, e) = quoted_name(s, self.pos as int);
                    (name@ + n, e)
                }),
            invariant
                self.chars@ == s,
                self.chars == old(self).chars,
                self.frames == old(self).frames,
                self.formula == old(self).formula,
                start == old(self).pos,
                start < self.pos <= s.len(),
            ensures
                quoted_name(s, start + 1) == (name@, self.pos as int),
            decreases s.len() - self.pos,
        {
            let ghost p = self.pos as int;
            let c = self.chars[self.pos];
            self.pos += 1;
            if c == '\'' && !self.eat('\'') {
                assert(quoted_name(s, p) == (Seq::<char>::empty(), p + 1));
                assert(name@ + Seq::<char>::empty() =~= name@);
                break;
            }
            let ghost old_name = name@;
            name.push(c);
            proof {
                let (n, e) = quoted_name(s, self.pos as int);
                assert(old_name + (seq![c] + n) =~= name@ + n);
            }
            if self.pos >= self.chars.len() {
                assert(name@ + Seq::<char>::empty() =~= name@);
            }
        }
        proof {
            lemma_quoted_name(s, start + 1);
        }
        if !self.eat('!') {
            return;
        }
        if name.len() > 0 && name[0] == '[' {
            self.external_tail(name);
        } else {
            self.sheet_reference(start, name);
        }
    }

    /// Reads an external reference such as `[1]Sheet1!A1`, which is recorded as unresolved.
    /// Records the rest of the formula, from an external reference without `]`,
    /// as unresolved.
    fn unclosed_external(&mut self)
        requires
            old(self).pos < old(self).chars.len(),
            bracket_end(old(self).chars@, old(self).pos as int) >= old(self).chars.len(),
        ensures
            final(self).chars == old(self).chars,
            final(self).state() == external_step(old(self).chars@, old(self).state()),
    {
        let rest = slice_chars(&self.chars, self.pos, self.chars.len());
        let ghost before = self.formula@;
        self.formula.unresolved.push(string_of(&rest));
        assert(self.formula@.unresolved =~= before.unresolved.push(rest@));
        assert(self.formula@ == (FormulaView { unresolved: before.unresolved.push(rest@), ..before }));
        self.pos = self.chars.len();
    }

    fn external_reference(&mut self)
        requires
            old(self).pos < old(self).chars.len(),
            bracket_end(old(self).chars@, old(self).pos as int) < old(self).chars.len(),
        ensures
            final(self).chars == old(self).chars,
            final(self).state() == external_step(old(self).chars@, old(self).state()),
    {
        let ghost s = self.chars@;
        let start = self.pos;
        while self.pos < self.chars.len() && self.chars[self.pos] != ']'
            invariant
                self.chars@ == s,
                self.chars == old(self).chars,
                self.frames == old(self).frames,
                self.formula == old(self).formula,
                start == old(self).pos,
                start <= self.pos <= s.len(),
                bracket_end(s, self.pos as int) == bracket_end(s, start as int),
            decreases s.len() - self.pos,
        {
            self.pos += 1;
        }
        assert(self.pos as int == bracket_end(s, self.pos as int));
        self.pos += 1;
        proof {
            lemma_word_end(s, self.pos as int);
        }
        self.read_word();
        let name = slice_chars(&self.chars, start, self.pos);
        if self.eat('!') {
            self.external_tail(name);
        }
    }
}

/// Parses the given formula (with or without the leading `=`).
pub fn parse(text: &str) -> (f: Formula)
    ensures
        f@ == parsed(text@),
{
    let mut parser = Parser::new(text);
    parser.run_to_end();
    parser.formula
}

/// Returns the reference if the formula consists of a single cell reference only
/// (e.g., `=名簿!A5`), which is followed to resolve values without cache.
pub fn simple_reference(text: &str) -> (r: Option<(Option<String>, CellRef)>)
    ensures
        match r {
            Some((sheet, cell)) => simple_reference_of(text@) == Some((opt_view(sheet), cell)),
            None => simple_reference_of(text@) is None,
        },
{
    let body = Parser::new(text).chars;
    let t = string_of(&body);
    let formula = parse(&t);
    let n = body.len();
    proof {
        assert(formula@.references == parsed(t@).references);
    }
    if formula.references.len() == 1 {
        let r = &formula.references[0];
        assert(r@ == formula@.references[0]);
        if r.span.0 == 0 && r.span.1 == n && r.range.start == r.range.end {
            let sheet = match &r.sheet {
                Some(s) => Some(s.clone()),
                None => None,
            };
            return Some((sheet, r.range.start));
        }
    }
    None
}

} // verus!
