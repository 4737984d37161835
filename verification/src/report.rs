//! Requests for evaluation results and the documents built from them.

use vstd::prelude::*;
use chrono::Datelike;

verus! {

/// The query of a results request: the day whose evaluations are
/// wanted, as `YYYY-MM-DD`, or none for today.
pub struct ResultsQuery {
    pub date: Option<String>,
}

/// A calendar day of the proleptic Gregorian calendar.
#[derive(Clone, Copy, Debug, PartialEq, Eq, Structural)]
pub struct CalendarDate {
    pub year: i32,
    pub month: u32,
    pub day: u32,
}

/// What `chrono::NaiveDate::parse_from_str` makes of a text with the
/// format `%Y-%m-%d`: the day it names, or `None` where the text does not
/// name a valid day in that format.
pub uninterp spec fn parsed_date(text: Seq<char>) -> Option<CalendarDate>;

/// Parses a day written as `%Y-%m-%d`.
///
/// Calls `chrono::NaiveDate::parse_from_str` and reads the year, month
/// and day of the result. The contract names the result
/// (`parsed_date`) and states only what chrono's `Datelike` documents of
/// any date: its month is in 1..=12 and its day in 1..=31.
#[verifier::external_body]
fn parse_iso_date(text: &str) -> (r: Option<CalendarDate>)
    ensures
        r == parsed_date(text@),
        r matches Some(d) ==> 1 <= d.month <= 12 && 1 <= d.day <= 31,
{
    match chrono::NaiveDate::parse_from_str(text, "%Y-%m-%d") {
        Ok(d) => Some(CalendarDate { year: d.year(), month: d.month(), day: d.day() }),
        Err(_) => None,
    }
}

/// Which day a results request is about.
#[derive(Clone, Copy, Debug, PartialEq, Eq, Structural)]
pub enum DateChoice {
    /// The day that was asked for.
    Requested(CalendarDate),
    /// No day was asked for: today, in the dashboard's time zone.
    Today,
    /// The day asked for is not a valid `YYYY-MM-DD` date; the request
    /// is refused as a bad request.
    Invalid,
}

/// The choice made from the parse of a requested day.
pub fn requested_day(parsed: Option<CalendarDate>) -> (c: DateChoice)
    ensures
        c == match parsed {
            Some(d) => DateChoice::Requested(d),
            None => DateChoice::Invalid,
        },
{
    match parsed {
        Some(d) => DateChoice::Requested(d),
        None => DateChoice::Invalid,
    }
}

/// The day that a results query is about.
pub fn results_date(query: &ResultsQuery) -> (c: DateChoice)
    ensures
        c == match query.date {
            None => DateChoice::Today,
            Some(text) => match parsed_date(text@) {
                Some(d) => DateChoice::Requested(d),
                None => DateChoice::Invalid,
            },
        },
{
    match &query.date {
        None => DateChoice::Today,
        Some(text) => requested_day(parse_iso_date(text.as_str())),
    }
}

/// Whether a byte is left as it is by percent-encoding: an ASCII letter
/// or digit, or one of `-`, `.`, `_`, `~`.
pub open spec fn unreserved_byte(b: int) -> bool {
    ||| 0x30 <= b <= 0x39
    ||| 0x41 <= b <= 0x5a
    ||| 0x61 <= b <= 0x7a
    ||| b == 0x2d
    ||| b == 0x2e
    ||| b == 0x5f
    ||| b == 0x7e
}

/// The upper-case hexadecimal digit for `d` in `0..16`.
pub open spec fn upper_hex_digit(d: int) -> char {
    seq!['0', '1', '2', '3', '4', '5', '6', '7', '8', '9', 'A', 'B', 'C', 'D', 'E', 'F'][d]
}

/// The encoding of one byte: itself where unreserved, else `%` and its
/// two upper-case hexadecimal digits.
pub open spec fn encoded_byte(b: int) -> Seq<char> {
    if unreserved_byte(b) {
        seq![b as char]
    } else {
        seq!['%', upper_hex_digit(b / 16), upper_hex_digit(b % 16)]
    }
}

/// The UTF-8 bytes of a character.
pub open spec fn utf8_bytes(c: char) -> Seq<int> {
    let v = c as int;
    if v < 0x80 {
        seq![v]
    } else if v < 0x800 {
        seq![0xc0 + v / 0x40, 0x80 + v % 0x40]
    } else if v < 0x10000 {
        seq![0xe0 + v / 0x1000, 0x80 + (v / 0x40) % 0x40, 0x80 + v % 0x40]
    } else {
        seq![
            0xf0 + v / 0x40000,
            0x80 + (v / 0x1000) % 0x40,
            0x80 + (v / 0x40) % 0x40,
            0x80 + v % 0x40,
        ]
    }
}

/// The encoding of the bytes of a character.
pub open spec fn encoded_char(c: char) -> Seq<char> {
    let bytes = utf8_bytes(c);
    if bytes.len() == 1 {
        encoded_byte(bytes[0])
    } else if bytes.len() == 2 {
        encoded_byte(bytes[0]) + encoded_byte(bytes[1])
    } else if bytes.len() == 3 {
        encoded_byte(bytes[0]) + encoded_byte(bytes[1]) + encoded_byte(bytes[2])
    } else {
        encoded_byte(bytes[0]) + encoded_byte(bytes[1]) + encoded_byte(bytes[2]) + encoded_byte(
            bytes[3],
        )
    }
}

/// The percent-encoding of a text, byte by byte of its UTF-8 form.
pub open spec fn url_encoded(text: Seq<char>) -> Seq<char>
    decreases text.len(),
{
    if text.len() == 0 {
        Seq::empty()
    } else {
        url_encoded(text.drop_last()) + encoded_char(text.last())
    }
}

/// Percent-encodes a text.
///
/// Calls `urlencoding::encode`, which percent-encodes every UTF-8 byte of
/// the text except ASCII letters, digits and `-`, `_`, `.`, `~`, with
/// upper-case hexadecimal digits; the contract states exactly that.
#[verifier::external_body]
fn url_encode(text: &str) -> (r: String)
    ensures
        r@ == url_encoded(text@),
{
    urlencoding::encode(text).into_owned()
}

/// The `data:` URL of an HTML document given in percent-encoded form.
pub fn html_data_url(encoded: &str) -> (url: String)
    ensures
        url@ == "data:text/html;charset=utf-8,"@ + encoded@,
{
    let mut url = String::from_str("data:text/html;charset=utf-8,");
    url.append(encoded);
    url
}

/// The `data:` URL from which the browser renders the PDF report of an
/// HTML document.
pub fn pdf_data_url(html: &str) -> (url: String)
    ensures
        url@ == "data:text/html;charset=utf-8,"@ + url_encoded(html@),
{
    let encoded = url_encode(html);
    html_data_url(encoded.as_str())
}

} // verus!
