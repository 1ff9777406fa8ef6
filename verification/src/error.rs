//! The one error type of the library, and what each error says to the user.

use crate::text::chars_of;
use crate::text::push_str;
use crate::text::string_of;
use vstd::prelude::*;

verus! {

/// A lookup that matched nothing.
#[derive(Debug, Clone, Copy, PartialEq, Eq)]
pub struct NoResults;

/// Every failure that a command can end in. The variants that hold a string
/// hold the message of the collaborator that failed.
#[derive(Debug, Clone, PartialEq, Eq)]
pub enum AppError {
    /// The store refused a statement, a transaction or a query.
    Sqlite(String),
    /// A stored record is not the JSON of a lexical record.
    Json(String),
    /// The download failed.
    Html(String),
    /// A file could not be read or written.
    Io(String),
    /// Text could not be laid out.
    Fmt,
    /// Any other failure.
    Box(String),
    /// The progress display refused its template.
    Template(String),
    /// A corpus line is not a lexical record. Holds the line's number,
    /// counted from one.
    MalformedRecord(u64),
    /// The query ran and matched nothing.
    NoResults,
}

/// The decimal digit for `d`, where `d` is less than ten.
pub open spec fn digit_char(d: nat) -> char {
    if d == 0 {
        '0'
    } else if d == 1 {
        '1'
    } else if d == 2 {
        '2'
    } else if d == 3 {
        '3'
    } else if d == 4 {
        '4'
    } else if d == 5 {
        '5'
    } else if d == 6 {
        '6'
    } else if d == 7 {
        '7'
    } else if d == 8 {
        '8'
    } else {
        '9'
    }
}

/// `n` in decimal, without leading zeros.
pub open spec fn decimal(n: nat) -> Seq<char>
    decreases n,
{
    if n < 10 {
        seq![digit_char(n)]
    } else {
        decimal(n / 10).push(digit_char(n % 10))
    }
}

/// What the user is told of a lookup that matched nothing.
pub open spec fn no_results_text() -> Seq<char> {
    "No results found"@
}

/// What the user is told of `e`.
pub open spec fn error_text(e: AppError) -> Seq<char> {
    match e {
        AppError::Sqlite(m) => "Rusqlite error: "@ + m@,
        AppError::Json(m) => "serde_json error: "@ + m@,
        AppError::Html(m) => "Reqwest error: "@ + m@,
        AppError::Io(m) => "IO error: "@ + m@,
        AppError::Fmt => "Fmt error: an error occurred when formatting an argument"@,
        AppError::Box(m) => "Std Error: "@ + m@,
        AppError::Template(m) => "Progress bar template error: "@ + m@,
        AppError::MalformedRecord(line) => "Malformed record at line "@ + decimal(line as nat),
        AppError::NoResults => no_results_text(),
    }
}

/// The decimal digit for `d`.
fn digit(d: u64) -> (c: char)
    requires
        d < 10,
    ensures
        c == digit_char(d as nat),
{
    if d == 0 {
        '0'
    } else if d == 1 {
        '1'
    } else if d == 2 {
        '2'
    } else if d == 3 {
        '3'
    } else if d == 4 {
        '4'
    } else if d == 5 {
        '5'
    } else if d == 6 {
        '6'
    } else if d == 7 {
        '7'
    } else if d == 8 {
        '8'
    } else {
        '9'
    }
}

/// Appends `n` in decimal to `out`.
pub fn push_decimal(out: &mut Vec<char>, n: u64)
    ensures
        final(out)@ == old(out)@ + decimal(n as nat),
    decreases n,
{
    if n < 10 {
        out.push(digit(n));
        assert(out@ =~= old(out)@ + decimal(n as nat));
    } else {
        push_decimal(out, n / 10);
        out.push(digit(n % 10));
        assert(out@ =~= old(out)@ + decimal(n as nat));
    }
}

impl NoResults {
    /// What the user is told.
    pub fn message(&self) -> (r: String)
        ensures
            r@ == no_results_text(),
    {
        let mut out: Vec<char> = Vec::new();
        push_str(&mut out, "No results found");
        assert(out@ =~= no_results_text());
        string_of(&out)
    }

    /// A short description of the error.
    pub fn description(&self) -> (r: &'static str)
        ensures
            r@ == no_results_text(),
    {
        "No results found"
    }
}

/// `label`, then `detail`.
fn labelled(label: &str, detail: &String) -> (r: String)
    ensures
        r@ == label@ + detail@,
{
    let mut out = chars_of(label);
    push_str(&mut out, detail.as_str());
    string_of(&out)
}

impl AppError {
    /// What the user is told of this error.
    pub fn message(&self) -> (r: String)
        ensures
            r@ == error_text(*self),
    {
        match self {
            AppError::Sqlite(m) => labelled("Rusqlite error: ", m),
            AppError::Json(m) => labelled("serde_json error: ", m),
            AppError::Html(m) => labelled("Reqwest error: ", m),
            AppError::Io(m) => labelled("IO error: ", m),
            AppError::Fmt => {
                let out = chars_of("Fmt error: an error occurred when formatting an argument");
                string_of(&out)
            },
            AppError::Box(m) => labelled("Std Error: ", m),
            AppError::Template(m) => labelled("Progress bar template error: ", m),
            AppError::MalformedRecord(line) => {
                let mut out = chars_of("Malformed record at line ");
                push_decimal(&mut out, *line);
                string_of(&out)
            },
            AppError::NoResults => NoResults.message(),
        }
    }
}

} // verus!
