//! Student ids and their patterns.
use vstd::prelude::*;
use crate::Error;
use crate::formula::opt_view;
use crate::text::{append, chars_of, signed_decimal, signed_decimal_chars, string_of, trim, trim_chars};

verus! {

/// The default pattern of student ids.
pub const DEFAULT_ID_PATTERN: &'static str = "^[0-9]{7}$";

/// A normalized student id, which is compared to identify students.
#[derive(Debug, PartialEq, Eq, Hash, PartialOrd, Ord)]
pub struct StudentId(pub String);

impl View for StudentId {
    type V = Seq<char>;

    open spec fn view(&self) -> Seq<char> {
        self.0@
    }
}

impl StudentId {
    /// Creates the id of the text.
    pub fn new(id: &str) -> (r: Self)
        ensures
            r@ == id@,
    {
        StudentId(String::from_str(id))
    }

    /// The id as a string.
    pub fn to_string(&self) -> (r: String)
        ensures
            r@ == self@,
    {
        self.0.clone()
    }
}

impl Clone for StudentId {
    fn clone(&self) -> (r: Self)
        ensures
            r == *self,
    {
        StudentId(self.0.clone())
    }
}

impl<'a> From<&'a str> for StudentId {
    fn from(id: &'a str) -> (r: Self)
        ensures
            r@ == id@,
    {
        Self::new(id)
    }
}

impl<'a> vstd::std_specs::convert::FromSpecImpl<&'a str> for StudentId {
    open spec fn obeys_from_spec() -> bool {
        false
    }

    open spec fn from_spec(v: &'a str) -> StudentId {
        arbitrary()
    }
}

/// A student in a row of a student table.
#[derive(Debug, PartialEq, Eq)]
pub struct Student {
    pub id: StudentId,
    pub name: Option<String>,
}

/// The model of a student: the id and the name.
pub struct StudentView {
    pub id: Seq<char>,
    pub name: Option<Seq<char>>,
}

impl View for Student {
    type V = StudentView;

    open spec fn view(&self) -> StudentView {
        StudentView { id: self.id@, name: opt_view(self.name) }
    }
}

impl Clone for Student {
    fn clone(&self) -> (r: Self)
        ensures
            r == *self,
    {
        let name = match &self.name {
            Some(n) => Some(n.clone()),
            None => None,
        };
        Student { id: self.id.clone(), name }
    }
}

/// The value of a cell, as the library reads it.
#[derive(Debug, PartialEq)]
pub enum CellValue {
    /// An empty cell.
    Empty,
    /// An integer.
    Int(i64),
    /// A floating-point number, held as its text: without a fraction when the value
    /// is integral and below 10^15 in magnitude (`1234001.0` is `1234001`), and as
    /// `f64::to_string` writes it otherwise.
    Float(String),
    /// A string.
    String(String),
    /// Any other value (a boolean, a date, a duration, or an error).
    Other,
}

impl Clone for CellValue {
    fn clone(&self) -> (r: Self)
        ensures
            r == *self,
    {
        match self {
            CellValue::Empty => CellValue::Empty,
            CellValue::Int(i) => CellValue::Int(*i),
            CellValue::Float(t) => CellValue::Float(t.clone()),
            CellValue::String(s) => CellValue::String(s.clone()),
            CellValue::Other => CellValue::Other,
        }
    }
}

/// The text of a cell value, trimmed, or `None` if it is empty or not a number or
/// a string.
pub open spec fn cell_text_of(data: CellValue) -> Option<Seq<char>> {
    let text = match data {
        CellValue::Int(i) => Some(signed_decimal(i as int)),
        CellValue::Float(t) => Some(t@),
        CellValue::String(s) => Some(trim(s@)),
        _ => None,
    };
    match text {
        Some(t) => if t.len() > 0 { Some(t) } else { None },
        None => None,
    }
}

/// Converts the cell value into a trimmed text. Integral floats have no fractions
/// (`1234001.0` becomes `1234001`).
pub fn cell_text(data: &CellValue) -> (r: Option<String>)
    ensures
        opt_view(r) == cell_text_of(*data),
{
    let text: Vec<char> = match data {
        CellValue::Int(i) => signed_decimal_chars(*i),
        CellValue::Float(t) => chars_of(t.as_str()),
        CellValue::String(s) => trim_chars(&chars_of(s.as_str())),
        _ => {
            return None;
        },
    };
    if text.len() > 0 {
        Some(string_of(&text))
    } else {
        None
    }
}

// ---------------------------------------------------------------------------
// Regular expressions.

/// The error message of `regex::Regex::new` for the pattern, or `None` if it is a
/// valid regular expression.
pub uninterp spec fn regex_error(pattern: Seq<char>) -> Option<Seq<char>>;

/// What `regex::Regex::captures` finds in the text with the (valid) pattern: the
/// text of the named group if it took part in the match, and the whole match.
pub uninterp spec fn regex_captures(pattern: Seq<char>, text: Seq<char>, group: Seq<char>) -> Option<
    (Option<Seq<char>>, Seq<char>),
>;

pub open spec fn captures_view(r: Option<(Option<String>, String)>) -> Option<
    (Option<Seq<char>>, Seq<char>),
> {
    match r {
        Some((named, whole)) => Some((opt_view(named), whole@)),
        None => None,
    }
}

/// Compiles the pattern with `regex::Regex::new`, and returns the message of its
/// error if any. The result is named by [`regex_error`].
#[verifier::external_body]
fn pattern_error(pattern: &str) -> (r: Option<String>)
    ensures
        opt_view(r) == regex_error(pattern@),
{
    regex::Regex::new(pattern).err().map(|e| e.to_string())
}

/// Compiles the pattern with `regex::Regex::new`, and finds the first match in the
/// text with `Regex::captures`: the group of the given name (`Captures::name`, if
/// it took part) and the whole match (`Captures::get(0)`, which is always present
/// in a match). It finds nothing when the pattern is invalid. The result is named
/// by [`regex_captures`].
#[verifier::external_body]
fn captures(pattern: &str, text: &str, group: &str) -> (r: Option<(Option<String>, String)>)
    ensures
        regex_error(pattern@) is Some ==> r is None,
        regex_error(pattern@) is None ==> captures_view(r) == regex_captures(pattern@, text@, group@),
{
    let regex = regex::Regex::new(pattern).ok()?;
    let found = regex.captures(text)?;
    Some((found.name(group).map(|m| m.as_str().to_string()), found[0].to_string()))
}

/// The pattern anchored at both ends: it must match the whole cell.
pub open spec fn anchored(pattern: Seq<char>) -> Seq<char> {
    "^(?:"@ + pattern + ")$"@
}

/// The student id that the (anchored) pattern finds in the cell value: the text of
/// the group `id` if it exists, or the whole text.
pub open spec fn extract_of(pattern: Seq<char>, data: CellValue) -> Option<Seq<char>> {
    match cell_text_of(data) {
        None => None,
        Some(text) => if regex_error(pattern) is Some {
            None
        } else {
            match regex_captures(pattern, text, "id"@) {
                Some((Some(id), _)) => Some(id),
                Some((None, whole)) => Some(whole),
                None => None,
            }
        },
    }
}

/// The pattern to find student ids in cells.
#[derive(Debug)]
pub struct IdPattern {
    /// The anchored regular expression.
    source: String,
}

impl View for IdPattern {
    type V = Seq<char>;

    /// The anchored regular expression.
    closed spec fn view(&self) -> Seq<char> {
        self.source@
    }
}

impl Clone for IdPattern {
    fn clone(&self) -> (r: Self)
        ensures
            r@ == self@,
    {
        IdPattern { source: self.source.clone() }
    }
}

fn anchor(pattern: &str) -> (r: String)
    ensures
        r@ == anchored(pattern@),
{
    let mut text = chars_of("^(?:");
    append(&mut text, &chars_of(pattern));
    append(&mut text, &chars_of(")$"));
    string_of(&text)
}

impl IdPattern {
    /// Creates the pattern. It always matches the whole cell, even without `^` and `$`.
    pub fn new(pattern: &str) -> (r: Result<Self, Error>)
        ensures
            match r {
                Ok(p) => p@ == anchored(pattern@) && regex_error(anchored(pattern@)) is None,
                Err(Error::Regex(message)) => regex_error(anchored(pattern@)) == Some(message@),
                Err(_) => false,
            },
    {
        let source = anchor(pattern);
        match pattern_error(source.as_str()) {
            None => Ok(IdPattern { source }),
            Some(message) => Err(Error::Regex(message)),
        }
    }

    /// Returns the normalized student id if the cell matches the pattern.
    /// The named group `id` is used as the id if it exists.
    pub fn extract(&self, data: &CellValue) -> (r: Option<StudentId>)
        ensures
            match r {
                Some(id) => extract_of(self@, *data) == Some(id@),
                None => extract_of(self@, *data) is None,
            },
    {
        let text = cell_text(data)?;
        let (named, whole) = captures(self.source.as_str(), text.as_str(), "id")?;
        match named {
            Some(id) => Some(StudentId(id)),
            None => Some(StudentId(whole)),
        }
    }
}

impl Default for IdPattern {
    fn default() -> (r: Self)
        ensures
            r@ == anchored(DEFAULT_ID_PATTERN@),
    {
        IdPattern { source: anchor(DEFAULT_ID_PATTERN) }
    }
}

} // verus!
