use vstd::prelude::*;
use vstd::string::StringExecFns;
use vstd::utf8::is_ascii_chars;
use convert_case::Casing;
use crate::workspace::{Status, Timestamp, Workspace};

verus! {

/// The text shown for a status.
pub open spec fn status_text(s: Status) -> Seq<char> {
    match s {
        Status::Open => "Open"@,
        Status::Closed => "Closed"@,
        Status::Unknown => "Unknown"@,
    }
}

impl Status {
    /// The status's name as it is shown.
    pub fn text(&self) -> (r: String)
        ensures
            r@ == status_text(*self),
    {
        match self {
            Status::Open => String::from_str("Open"),
            Status::Closed => String::from_str("Closed"),
            Status::Unknown => String::from_str("Unknown"),
        }
    }
}

/// The words of `s` in title case, as convert_case writes them.
pub uninterp spec fn title_case_of(s: Seq<char>) -> Seq<char>;

/// Whether a character has the Unicode `Uppercase` property.
pub uninterp spec fn upper_of(c: char) -> bool;

/// Relies on std's `char::is_uppercase`: whether the character has the Unicode
/// `Uppercase` property, a fact of the character alone.
#[verifier::external_body]
fn is_upper(c: char) -> (r: bool)
    ensures
        r == upper_of(c),
{
    c.is_uppercase()
}

/// A character at which convert_case splits words on its own.
pub open spec fn is_word_separator(c: char) -> bool {
    c == ' ' || c == '-' || c == '_'
}

pub open spec fn is_ascii_digit(c: char) -> bool {
    '0' <= c && c <= '9'
}

/// Text that convert_case title-cases without cutting inside a character: ASCII text,
/// where character positions are byte offsets; or text without ASCII digits in which
/// each upper-case character after the first opens a word, so that no cut is made
/// inside a word at all.
pub open spec fn title_case_safe(s: Seq<char>) -> bool {
    is_ascii_chars(s) || (
    (forall|i: int| 0 <= i < s.len() ==> !is_ascii_digit(#[trigger] s[i]))
        && (forall|i: int|
        1 <= i < s.len() && upper_of(#[trigger] s[i]) ==> is_word_separator(s[i - 1])))
}

/// Relies on convert_case's `to_case(Case::Title)`: words split at spaces, dashes,
/// underscores and case or digit changes, each capitalised, joined by spaces. It
/// counts the cuts between words in characters and makes them at byte offsets, which
/// panics when a cut falls inside a character; on the text handed over no cut does.
#[verifier::external_body]
fn title_case(s: &String) -> (r: String)
    requires
        title_case_safe(s@),
    ensures
        r@ == title_case_of(s@),
        s@.len() == 0 ==> r@.len() == 0,
{
    s.to_case(convert_case::Case::Title)
}

/// Whether convert_case can title-case the text (see `title_case_safe`).
pub fn can_title_case(d: &str) -> (r: bool)
    ensures
        r == title_case_safe(d@),
{
    if d.is_ascii() {
        return true;
    }
    let len = d.unicode_len();
    let mut i: usize = 0;
    let mut prev: char = ' ';
    while i < len
        invariant
            len == d@.len(),
            i <= len,
            !is_ascii_chars(d@),
            i > 0 ==> prev == d@[i - 1],
            forall|k: int| 0 <= k < i ==> !is_ascii_digit(#[trigger] d@[k]),
            forall|k: int|
                1 <= k < i && upper_of(#[trigger] d@[k]) ==> is_word_separator(d@[k - 1]),
        decreases len - i,
    {
        let c = d.get_char(i);
        if '0' <= c && c <= '9' {
            assert(is_ascii_digit(d@[i as int]));
            return false;
        }
        if i > 0 && is_upper(c) && !(prev == ' ' || prev == '-' || prev == '_') {
            assert(upper_of(d@[i as int]) && !is_word_separator(d@[i - 1]));
            return false;
        }
        prev = c;
        i = i + 1;
    }
    true
}

/// Whether chrono can place the instant on its UTC calendar.
pub uninterp spec fn utc_representable(secs: i64, nanos: u32) -> bool;

/// Relies on chrono's `DateTime::<Utc>::from_timestamp`, which yields a date exactly
/// when the instant lies in chrono's range, then on `with_timezone(&Local)` and
/// `format`: the text depends on the machine's time zone (chrono falls back to UTC
/// where the time zone data cannot be read), and the pattern always writes text.
#[verifier::external_body]
fn format_local(t: Timestamp) -> (r: Option<String>)
    ensures
        r.is_some() == utc_representable(t.secs, t.nanos),
        r is Some ==> r->0@.len() > 0,
{
    match chrono::DateTime::<chrono::Utc>::from_timestamp(t.secs, t.nanos) {
        Some(d) => Some(d.with_timezone(&chrono::Local).format("%b %d %Y %I:%M:%S %P").to_string()),
        None => None,
    }
}

/// The description as it is shown: title-cased wherever convert_case can do so,
/// as it is otherwise.
pub open spec fn shown_description(d: Seq<char>) -> Seq<char> {
    if title_case_safe(d) {
        title_case_of(d)
    } else {
        d
    }
}

/// Shows a description: title-cased wherever convert_case can do so, unchanged otherwise.
pub fn description_cell(d: &String) -> (r: String)
    ensures
        r@ == shown_description(d@),
{
    if can_title_case(d.as_str()) {
        title_case(d)
    } else {
        d.clone()
    }
}

/// The four cells that show a record: story, modification time in local time, status
/// and description. The time cell is empty exactly for an instant that chrono cannot place.
pub fn row_cells(w: &Workspace) -> (r: Vec<String>)
    ensures
        r@.len() == 4,
        r@[0]@ == w@.story,
        !utc_representable(w@.modified.secs, w@.modified.nanos) ==> r@[1]@.len() == 0,
        utc_representable(w@.modified.secs, w@.modified.nanos) ==> r@[1]@.len() > 0,
        r@[2]@ == status_text(w@.status),
        r@[3]@ == shown_description(w@.description),
{
    let mut cells: Vec<String> = Vec::new();
    cells.push(w.story().clone());
    let time = match format_local(w.modified()) {
        Some(s) => s,
        None => String::new(),
    };
    cells.push(time);
    cells.push(w.status().text());
    cells.push(description_cell(w.description()));
    cells
}

} // verus!
