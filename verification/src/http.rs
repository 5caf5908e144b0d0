//! What surrounds the request itself: the request URL, the timing of a
//! request, and the standard text of a response status.

use crate::error::{AsteriskError, ErrorModel};
use crate::headers::{
    headers_result, insert_entry, listed_entries, optional_text, parse_single_header, sendable,
    split_header_list, texts, token_entries, token_headers, HeaderCollection,
};
use crate::text::{find_char, from_chars, index_of_char, push_char, to_chars};
use std::time::{Duration, Instant};
use vstd::prelude::*;
use vstd::string::*;

verus! {

/// `std::time::Instant`: a moment on the monotonic clock. Nothing is known
/// of what a value holds; it is only carried from one call to the next.
#[verifier::external_type_specification]
#[verifier::external_body]
pub struct ExInstant(Instant);

/// Calls `Instant::now`. Nothing is said of the moment that comes back.
#[verifier::external_body]
fn instant_now() -> Instant {
    Instant::now()
}

/// Calls `Instant::saturating_duration_since`, which gives zero where
/// `earlier` is the later of the two. Nothing is said of the duration.
#[verifier::external_body]
fn time_between(later: &Instant, earlier: &Instant) -> Duration {
    later.saturating_duration_since(*earlier)
}

/// Calls `Duration::as_millis`. Nothing is said of the number.
#[verifier::external_body]
fn whole_millis(duration: &Duration) -> u128 {
    duration.as_millis()
}

/// The character of a decimal digit.
pub open spec fn digit_char(d: int) -> char {
    if d == 0 {
        '0'
    } else if d == 1 {
        '1'
    } else if d == 2 {
        '2'
    } else if d == 3 {
        '3'
    } else if d == 4 {
        '4'
    } else if d == 5 {
        '5'
    } else if d == 6 {
        '6'
    } else if d == 7 {
        '7'
    } else if d == 8 {
        '8'
    } else {
        '9'
    }
}

/// The decimal numeral of `n`, without leading zeros.
pub open spec fn decimal(n: nat) -> Seq<char>
    decreases n,
{
    if n < 10 {
        seq![digit_char(n as int)]
    } else {
        decimal(n / 10).push(digit_char((n % 10) as int))
    }
}

/// The character of the decimal digit `d`.
pub fn digit(d: u128) -> (c: char)
    requires
        d < 10,
    ensures
        c == digit_char(d as int),
{
    if d == 0 {
        '0'
    } else if d == 1 {
        '1'
    } else if d == 2 {
        '2'
    } else if d == 3 {
        '3'
    } else if d == 4 {
        '4'
    } else if d == 5 {
        '5'
    } else if d == 6 {
        '6'
    } else if d == 7 {
        '7'
    } else if d == 8 {
        '8'
    } else {
        '9'
    }
}

/// Appends the decimal numeral of `n` to `text`.
pub fn push_decimal(text: &mut String, n: u128)
    ensures
        final(text)@ == old(text)@ + decimal(n as nat),
    decreases n,
{
    if n >= 10 {
        push_decimal(text, n / 10);
    }
    push_char(text, digit(n % 10));
    proof {
        if n >= 10 {
            assert(old(text)@ + decimal((n / 10) as nat).push(digit_char((n % 10) as int)) =~= (
            old(text)@ + decimal((n / 10) as nat)).push(digit_char((n % 10) as int)));
        } else {
            assert(old(text)@ + seq![digit_char(n as int)] =~= old(text)@.push(
                digit_char(n as int),
            ));
        }
    }
}

/// The line that reports a request's timing, in milliseconds.
pub open spec fn timing_line(total: nat, first_byte: Option<nat>) -> Seq<char> {
    match first_byte {
        Some(first) => "Total: "@ + decimal(total) + "ms (First byte: "@ + decimal(first)
            + "ms)"@,
        None => "Total: "@ + decimal(total) + "ms"@,
    }
}

/// Writes the line that reports a request's timing.
pub fn format_timing(total: u128, first_byte: Option<u128>) -> (r: String)
    ensures
        r@ == timing_line(total as nat, optional_count(first_byte)),
{
    let mut line = String::from_str("Total: ");
    push_decimal(&mut line, total);
    match first_byte {
        Some(first) => {
            line.append("ms (First byte: ");
            push_decimal(&mut line, first);
            line.append("ms)");
        },
        None => {
            line.append("ms");
        },
    }
    line
}

/// The timing of one request: the moment of its start, and the
/// milliseconds from the start to the first byte of the response and to
/// the end, as far as they have been marked.
pub struct RequestTiming {
    start: Instant,
    first_byte: Option<u128>,
    end: Option<u128>,
}

/// The number that an optional count stands for.
pub open spec fn optional_count(o: Option<u128>) -> Option<nat> {
    match o {
        Some(n) => Some(n as nat),
        None => None,
    }
}

impl RequestTiming {
    /// The milliseconds from the start to the first byte, once marked.
    pub closed spec fn first_byte_millis(&self) -> Option<nat> {
        optional_count(self.first_byte)
    }

    /// The milliseconds from the start to the end, once marked.
    pub closed spec fn end_millis(&self) -> Option<nat> {
        optional_count(self.end)
    }

    /// A timing that starts now.
    pub fn new() -> (r: Self)
        ensures
            r.first_byte_millis() is None,
            r.end_millis() is None,
    {
        RequestTiming { start: instant_now(), first_byte: None, end: None }
    }

    /// The milliseconds from the start to now.
    fn elapsed(&self) -> u128 {
        let now = instant_now();
        let passed = time_between(&now, &self.start);
        whole_millis(&passed)
    }

    /// Marks the first byte as received now.
    pub fn set_first_byte(&mut self)
        ensures
            final(self).first_byte_millis() is Some,
            final(self).end_millis() == old(self).end_millis(),
    {
        self.first_byte = Some(self.elapsed());
    }

    /// Marks the request as ended now.
    pub fn set_end(&mut self)
        ensures
            final(self).end_millis() is Some,
            final(self).first_byte_millis() == old(self).first_byte_millis(),
    {
        self.end = Some(self.elapsed());
    }

    /// The line that reports the timing: the time to the end, or to now
    /// where the end is not marked, and the time to the first byte where
    /// that is marked.
    pub fn format(&self) -> (r: String)
        ensures
            match self.end_millis() {
                Some(total) => r@ == timing_line(total, self.first_byte_millis()),
                None => exists|total: nat| r@ == timing_line(total, self.first_byte_millis()),
            },
    {
        let total = match self.end {
            Some(total) => total,
            None => self.elapsed(),
        };
        format_timing(total, self.first_byte)
    }
}

/// The index at or after `from` at which the run of `/` that starts at
/// `from` ends.
pub open spec fn slashes_end(s: Seq<char>, from: int) -> int
    decreases s.len() - from,
{
    if 0 <= from < s.len() && s[from] == '/' {
        slashes_end(s, from + 1)
    } else {
        from
    }
}

/// The URL of a request: the base and the endpoint with exactly the
/// base's own slashes and one more between them where the base ends in
/// none; the endpoint's leading slashes are dropped.
pub open spec fn request_url(base: Seq<char>, endpoint: Seq<char>) -> Seq<char> {
    let path = endpoint.subrange(slashes_end(endpoint, 0), endpoint.len() as int);
    if base.len() > 0 && base.last() == '/' {
        base + path
    } else {
        base + "/"@ + path
    }
}

/// Builds the URL of a request from the base URL and the endpoint.
pub fn build_request_url(base_url: &str, endpoint: &str) -> (r: String)
    ensures
        r@ == request_url(base_url@, endpoint@),
{
    let base = to_chars(base_url);
    let path = to_chars(endpoint);
    let mut from: usize = 0;
    while from < path.len() && path[from] == '/'
        invariant
            from <= path.len(),
            slashes_end(path@, 0) == slashes_end(path@, from as int),
        decreases path.len() - from,
    {
        from += 1;
    }
    let tail = from_chars(&path, from, path.len());
    let mut url = String::from_str(base_url);
    if !(base.len() > 0 && base[base.len() - 1] == '/') {
        url.append("/");
    }
    url.append(tail.as_str());
    url
}

/// How a response status is to be read.
#[derive(Clone, Copy, Debug, PartialEq, Eq, Structural)]
pub enum StatusClass {
    /// 200 to 299.
    Success,
    /// 300 to 399.
    Redirect,
    /// Any other status.
    Failure,
}

/// The class of a status.
pub open spec fn class_of(status: u16) -> StatusClass {
    if 200 <= status <= 299 {
        StatusClass::Success
    } else if 300 <= status <= 399 {
        StatusClass::Redirect
    } else {
        StatusClass::Failure
    }
}

/// Decides [`class_of`].
pub fn status_class(status: u16) -> (r: StatusClass)
    ensures
        r == class_of(status),
{
    if 200 <= status && status <= 299 {
        StatusClass::Success
    } else if 300 <= status && status <= 399 {
        StatusClass::Redirect
    } else {
        StatusClass::Failure
    }
}

/// The standard text of a status.
pub open spec fn text_of(status: u16) -> Seq<char> {
    if status == 200 {
        "OK"@
    } else if status == 201 {
        "Created"@
    } else if status == 204 {
        "No Content"@
    } else if status == 301 {
        "Moved Permanently"@
    } else if status == 302 {
        "Found"@
    } else if status == 304 {
        "Not Modified"@
    } else if status == 400 {
        "Bad Request"@
    } else if status == 401 {
        "Unauthorized"@
    } else if status == 403 {
        "Forbidden"@
    } else if status == 404 {
        "Not Found"@
    } else if status == 500 {
        "Internal Server Error"@
    } else if status == 502 {
        "Bad Gateway"@
    } else if status == 503 {
        "Service Unavailable"@
    } else {
        "Unknown Status"@
    }
}

/// Decides [`text_of`].
pub fn status_text(status: u16) -> (r: &'static str)
    ensures
        r@ == text_of(status),
{
    if status == 200 {
        "OK"
    } else if status == 201 {
        "Created"
    } else if status == 204 {
        "No Content"
    } else if status == 301 {
        "Moved Permanently"
    } else if status == 302 {
        "Found"
    } else if status == 304 {
        "Not Modified"
    } else if status == 400 {
        "Bad Request"
    } else if status == 401 {
        "Unauthorized"
    } else if status == 403 {
        "Forbidden"
    } else if status == 404 {
        "Not Found"
    } else if status == 500 {
        "Internal Server Error"
    } else if status == 502 {
        "Bad Gateway"
    } else if status == 503 {
        "Service Unavailable"
    } else {
        "Unknown Status"
    }
}

/// Whether `entry` holds exactly one `:`.
pub open spec fn one_colon(entry: Seq<char>) -> bool {
    let first = find_char(entry, ':', 0);
    first < entry.len() && find_char(entry, ':', first + 1) >= entry.len()
}

/// The entries after the strings of `list` from `from` on have been
/// inserted in order, each of which must hold exactly one `:`; or the
/// first failure.
pub open spec fn strict_entries(
    entries: Seq<(Seq<char>, Seq<char>)>,
    list: Seq<Seq<char>>,
    from: int,
) -> Result<Seq<(Seq<char>, Seq<char>)>, ErrorModel>
    decreases list.len() - from,
{
    if from < 0 || from >= list.len() {
        Ok(entries)
    } else if !one_colon(list[from]) {
        Err(ErrorModel::MalformedHeaderEntry(None, list[from]))
    } else {
        match insert_entry(entries, list[from]) {
            Err(e) => Err(e),
            Ok(next) => strict_entries(next, list, from + 1),
        }
    }
}

/// The headers of a `k:v,k2:v2` list under a token, where no value may
/// hold a `:`.
pub open spec fn strictly_parsed(token: Option<Seq<char>>, list: Seq<char>) -> Result<
    Seq<(Seq<char>, Seq<char>)>,
    ErrorModel,
> {
    match token_entries(token) {
        Err(e) => Err(e),
        Ok(start) => strict_entries(start, listed_entries(list), 0),
    }
}

/// Assembles the headers of a `k:v,k2:v2` list under a token, refusing
/// an entry with more than one `:`.
pub fn parse_headers(headers_str: &str, token: Option<&str>) -> (r: Result<
    HeaderCollection,
    AsteriskError,
>)
    ensures
        headers_result(r) == strictly_parsed(optional_text(token), headers_str@),
        r matches Ok(headers) ==> sendable(headers@),
{
    let mut headers = match token_headers(token) {
        Err(e) => {
            return Err(e);
        },
        Ok(headers) => headers,
    };
    let pieces = split_header_list(headers_str);
    let ghost list = texts(pieces@);
    let mut i: usize = 0;
    while i < pieces.len()
        invariant
            i <= pieces.len(),
            list == texts(pieces@),
            list == listed_entries(headers_str@),
            sendable(headers@),
            token_entries(optional_text(token)) is Ok,
            strict_entries(headers@, list, i as int) == strictly_parsed(
                optional_text(token),
                headers_str@,
            ),
        decreases pieces.len() - i,
    {
        let chars = to_chars(pieces[i].as_str());
        let first = index_of_char(&chars, ':', 0);
        if first >= chars.len() || index_of_char(&chars, ':', first + 1) < chars.len() {
            return Err(AsteriskError::MalformedHeaderEntry(None, pieces[i].clone()));
        }
        match parse_single_header(pieces[i].as_str(), &mut headers) {
            Err(e) => {
                return Err(e);
            },
            Ok(()) => {},
        }
        i += 1;
    }
    Ok(headers)
}

} // verus!
