//! What is read from a request and written in front of a response.

use vstd::prelude::*;
use vstd::string::StringExecFns;
use crate::decimal::{decimal, parse_usize, push_decimal, usize_of};
use crate::parser::{lemma_space_run, space_run};
use crate::text::{chars_of, same_text, string_of};
use crate::unicode::whitespace;

verus! {

/// How many scalars that are no whitespace stand in `s` from `pos` on,
/// without a gap.
pub open spec fn word_run(s: Seq<char>, pos: int) -> nat
    decreases s.len() - pos,
{
    if 0 <= pos < s.len() && !whitespace(s[pos]) {
        1 + word_run(s, pos + 1)
    } else {
        0
    }
}

/// How many whitespace scalars stand in `s` before `end`, without a gap.
pub open spec fn space_run_back(s: Seq<char>, end: int) -> nat
    decreases end,
{
    if 0 < end <= s.len() && whitespace(s[end - 1]) {
        1 + space_run_back(s, end - 1)
    } else {
        0
    }
}

/// The text without the whitespace at its two ends.
pub open spec fn trimmed(s: Seq<char>) -> Seq<char> {
    if space_run(s, 0) == s.len() {
        Seq::empty()
    } else {
        s.subrange(space_run(s, 0) as int, s.len() - space_run_back(s, s.len() as int))
    }
}

/// The method and the path of a request line: its first two words, where
/// words are what whitespace parts. A line of fewer words has none.
pub open spec fn request_line(s: Seq<char>) -> Option<(Seq<char>, Seq<char>)> {
    let method_at: int = space_run(s, 0) as int;
    let method_end: int = method_at + word_run(s, method_at);
    let path_at: int = method_end + space_run(s, method_end);
    let path_end: int = path_at + word_run(s, path_at);
    if method_end > method_at && path_end > path_at {
        Some((s.subrange(method_at, method_end), s.subrange(path_at, path_end)))
    } else {
        None
    }
}

/// Whether a header line names the length of the body: it starts with
/// `content-length:`, each letter in either case.
pub open spec fn is_content_length(line: Seq<char>) -> bool {
    &&& line.len() >= 15
    &&& forall|i: int|
        0 <= i < 15 ==> (#[trigger] line[i]) == "content-length:"@[i] || line[i]
            == "CONTENT-LENGTH:"@[i]
}

/// How many scalars other than a colon stand in `s` from `pos` on, without
/// a gap.
pub open spec fn field_run(s: Seq<char>, pos: int) -> nat
    decreases s.len() - pos,
{
    if 0 <= pos < s.len() && s[pos] != ':' {
        1 + field_run(s, pos + 1)
    } else {
        0
    }
}

/// What a header line of at least fifteen scalars holds behind them, up
/// to the next colon or the end of the line.
pub open spec fn field_value(line: Seq<char>) -> Seq<char> {
    line.subrange(15, (15 + field_run(line, 15)) as int)
}

/// The length that a header line gives the body: for a line that names
/// the length, the unsigned numeral that its value holds between
/// whitespace, or zero where the value is no such numeral or too large;
/// for any other line, none.
pub open spec fn content_length_of(line: Seq<char>) -> Option<usize> {
    if is_content_length(line) {
        Some(
            match usize_of(trimmed(field_value(line))) {
                Some(n) => n,
                None => 0,
            },
        )
    } else {
        None
    }
}

/// The length that the header lines give the body: what the last line
/// that names the length gives, or zero where no line names it.
pub open spec fn content_length(headers: Seq<Seq<char>>) -> usize
    decreases headers.len(),
{
    if headers.len() == 0 {
        0
    } else {
        match content_length_of(headers.last()) {
            Some(n) => n,
            None => content_length(headers.drop_last()),
        }
    }
}

/// The header lines as sequences of scalar values, one for each line.
pub open spec fn lines(headers: Seq<String>) -> Seq<Seq<char>> {
    Seq::new(headers.len(), |i: int| headers[i]@)
}

/// What a request asks for.
#[derive(Debug, Clone, Copy, PartialEq, Eq)]
pub enum Route {
    Index,
    CurrentLocation,
    UpdateLocation,
    History,
    ClearHistory,
    NotFound,
}

/// The route of a method and a path.
pub open spec fn route_of(method: Seq<char>, path: Seq<char>) -> Route {
    if method == "GET"@ && path == "/"@ {
        Route::Index
    } else if method == "GET"@ && path == "/api/location"@ {
        Route::CurrentLocation
    } else if method == "POST"@ && path == "/api/location"@ {
        Route::UpdateLocation
    } else if method == "GET"@ && path == "/api/history"@ {
        Route::History
    } else if method == "DELETE"@ && path == "/api/history/clear"@ {
        Route::ClearHistory
    } else {
        Route::NotFound
    }
}

/// The reason phrase of a status code.
pub open spec fn status_text(status: u16) -> Seq<char> {
    if status == 200 {
        "OK"@
    } else if status == 400 {
        "Bad Request"@
    } else if status == 404 {
        "Not Found"@
    } else if status == 500 {
        "Internal Server Error"@
    } else {
        "Unknown"@
    }
}

/// The head of a response: the status line, the type and the length of
/// the body, the fixed headers, and the empty line that ends the head.
pub open spec fn response_head(status: u16, content_type: Seq<char>, body_len: nat) -> Seq<char> {
    "HTTP/1.1 "@ + decimal(status as nat) + " "@ + status_text(status) + "\r\n"@
        + "Content-Type: "@ + content_type + "\r\n"@ + "Content-Length: "@ + decimal(body_len)
        + "\r\n"@ + "Access-Control-Allow-Origin: *\r\n"@
        + "Access-Control-Allow-Methods: GET, POST, DELETE, OPTIONS\r\n"@
        + "Access-Control-Allow-Headers: Content-Type\r\n"@ + "Connection: close\r\n"@ + "\r\n"@
}

/// The index behind the whitespace that starts at `from`.
fn skip_spaces(chars: &Vec<char>, from: usize) -> (end: usize)
    requires
        from <= chars.len(),
    ensures
        end == from + space_run(chars@, from as int),
        end <= chars.len(),
{
    let mut i: usize = from;
    while i < chars.len() && chars[i].is_whitespace()
        invariant
            from <= i <= chars.len(),
            i + space_run(chars@, i as int) == from + space_run(chars@, from as int),
        decreases chars.len() - i,
    {
        i += 1;
    }
    i
}

/// The index behind the word that starts at `from`.
fn skip_word(chars: &Vec<char>, from: usize) -> (end: usize)
    requires
        from <= chars.len(),
    ensures
        end == from + word_run(chars@, from as int),
        end <= chars.len(),
{
    let mut i: usize = from;
    while i < chars.len() && !chars[i].is_whitespace()
        invariant
            from <= i <= chars.len(),
            i + word_run(chars@, i as int) == from + word_run(chars@, from as int),
        decreases chars.len() - i,
    {
        i += 1;
    }
    i
}

/// The method and the path of a request line, if it holds both.
pub fn parse_request_line(line: &str) -> (r: Option<(String, String)>)
    ensures
        match r {
            Some((method, path)) => request_line(line@) == Some((method@, path@)),
            None => request_line(line@) is None,
        },
{
    let chars = chars_of(line);
    let method_at = skip_spaces(&chars, 0);
    let method_end = skip_word(&chars, method_at);
    let path_at = skip_spaces(&chars, method_end);
    let path_end = skip_word(&chars, path_at);
    if method_end > method_at && path_end > path_at {
        Some((string_of(&chars, method_at, method_end), string_of(&chars, path_at, path_end)))
    } else {
        None
    }
}

/// Whether the line starts with `content-length:`, in either case.
fn names_content_length(line: &Vec<char>) -> (r: bool)
    ensures
        r == is_content_length(line@),
{
    if line.len() < 15 {
        return false;
    }
    let lower = chars_of("content-length:");
    let upper = chars_of("CONTENT-LENGTH:");
    proof {
        reveal_strlit("content-length:");
        reveal_strlit("CONTENT-LENGTH:");
    }
    let mut i: usize = 0;
    while i < 15
        invariant
            i <= 15 <= line.len(),
            lower@ == "content-length:"@,
            upper@ == "CONTENT-LENGTH:"@,
            lower.len() == 15,
            upper.len() == 15,
            forall|k: int|
                0 <= k < i ==> (#[trigger] line@[k]) == lower@[k] || line@[k] == upper@[k],
        decreases 15 - i,
    {
        if !(line[i] == lower[i] || line[i] == upper[i]) {
            return false;
        }
        i += 1;
    }
    true
}

/// The length that a header line gives the body, if it names one.
pub fn header_content_length(line: &str) -> (r: Option<usize>)
    ensures
        r == content_length_of(line@),
{
    let chars = chars_of(line);
    if !names_content_length(&chars) {
        return None;
    }
    let mut field: Vec<char> = Vec::new();
    let mut i: usize = 15;
    assert(field@ =~= chars@.subrange(15, 15));
    while i < chars.len() && chars[i] != ':'
        invariant
            15 <= i <= chars.len(),
            field@ == chars@.subrange(15, i as int),
            i + field_run(chars@, i as int) == 15 + field_run(chars@, 15),
        decreases chars.len() - i,
    {
        field.push(chars[i]);
        i += 1;
        assert(field@ =~= chars@.subrange(15, i as int));
    }
    assert(field@ == field_value(chars@));
    let from = skip_spaces(&field, 0);
    if from == field.len() {
        assert(usize_of(Seq::<char>::empty()) is None);
        return Some(0);
    }
    proof {
        lemma_space_run(field@, 0);
    }
    let mut to: usize = field.len();
    while to > 0 && field[to - 1].is_whitespace()
        invariant
            from < to <= field.len(),
            !whitespace(field@[from as int]),
            to - space_run_back(field@, to as int) == field.len() - space_run_back(
                field@,
                field.len() as int,
            ),
        decreases to,
    {
        to -= 1;
    }
    match parse_usize(&field, from, to) {
        Some(n) => Some(n),
        None => Some(0),
    }
}

/// The length that the header lines of a request give its body.
pub fn body_length(headers: &Vec<String>) -> (n: usize)
    ensures
        n == content_length(lines(headers@)),
{
    let ghost all = lines(headers@);
    let mut n: usize = 0;
    let mut i: usize = 0;
    assert(all.take(0) =~= Seq::<Seq<char>>::empty());
    while i < headers.len()
        invariant
            i <= headers.len(),
            all == lines(headers@),
            n == content_length(all.take(i as int)),
        decreases headers.len() - i,
    {
        proof {
            assert(all.take(i + 1).drop_last() =~= all.take(i as int));
            assert(all.take(i + 1).last() == headers@[i as int]@);
        }
        match header_content_length(headers[i].as_str()) {
            Some(length) => {
                n = length;
            },
            None => {},
        }
        i += 1;
    }
    assert(all.take(i as int) =~= all);
    n
}

/// The route of a method and a path.
pub fn route(method: &str, path: &str) -> (r: Route)
    ensures
        r == route_of(method@, path@),
{
    if same_text(method, "GET") && same_text(path, "/") {
        Route::Index
    } else if same_text(method, "GET") && same_text(path, "/api/location") {
        Route::CurrentLocation
    } else if same_text(method, "POST") && same_text(path, "/api/location") {
        Route::UpdateLocation
    } else if same_text(method, "GET") && same_text(path, "/api/history") {
        Route::History
    } else if same_text(method, "DELETE") && same_text(path, "/api/history/clear") {
        Route::ClearHistory
    } else {
        Route::NotFound
    }
}

/// The reason phrase of a status code.
pub fn reason(status: u16) -> (text: &'static str)
    ensures
        text@ == status_text(status),
{
    if status == 200 {
        "OK"
    } else if status == 400 {
        "Bad Request"
    } else if status == 404 {
        "Not Found"
    } else if status == 500 {
        "Internal Server Error"
    } else {
        "Unknown"
    }
}

/// The head of a response with the given status, type of body and length
/// of body in bytes.
pub fn head(status: u16, content_type: &str, body_len: usize) -> (text: String)
    ensures
        text@ == response_head(status, content_type@, body_len as nat),
{
    let mut text = String::from_str("HTTP/1.1 ");
    push_decimal(status as u64, &mut text);
    text.append(" ");
    text.append(reason(status));
    text.append("\r\n");
    text.append("Content-Type: ");
    text.append(content_type);
    text.append("\r\n");
    text.append("Content-Length: ");
    push_decimal(body_len as u64, &mut text);
    text.append("\r\n");
    text.append("Access-Control-Allow-Origin: *\r\n");
    text.append("Access-Control-Allow-Methods: GET, POST, DELETE, OPTIONS\r\n");
    text.append("Access-Control-Allow-Headers: Content-Type\r\n");
    text.append("Connection: close\r\n");
    text.append("\r\n");
    text
}

} // verus!
