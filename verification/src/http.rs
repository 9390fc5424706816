use vstd::prelude::*;

use crate::endpoint::{Endpoint, endpoint_text, push_endpoint};

verus! {

/// Largest header block, in bytes, read for one HTTP response.
pub const MAX_HTTP_HEADERS: usize = 64 * 1024;

/// Why an HTTP response header block was refused.
#[derive(Clone, Copy, Debug, PartialEq, Eq, Structural)]
pub enum HttpError {
    MissingTerminator,
    InvalidLineEnding,
    UnsupportedVersion,
    InvalidStatusSeparator,
    InvalidStatus,
    StatusOutOfRange(u16),
    InvalidReasonPhrase,
    NonFinalStatus(u16),
    MissingColon,
    InvalidFieldName,
    InvalidFieldValue,
    InvalidConnectionOption,
    NotPersistent,
    HeadersTooLarge,
    SwitchingProtocols,
}

/// The HTTP versions a keepalive response may use.
#[derive(Clone, Copy, Debug, PartialEq, Eq, Structural)]
pub enum HttpVersion {
    Http10,
    Http11,
}

/// The options named in `Connection` header fields so far.
#[derive(Clone, Copy, Debug, PartialEq, Eq, Structural)]
pub struct ConnectionOptions {
    pub close: bool,
    pub keep_alive: bool,
}

pub const CR: u8 = 0x0d;
pub const LF: u8 = 0x0a;
pub const SP: u8 = 0x20;
pub const HTAB: u8 = 0x09;
pub const COLON: u8 = 0x3a;
pub const COMMA: u8 = 0x2c;

/// `0-9`, `A-Z` or `a-z`.
pub open spec fn is_ascii_alphanumeric(b: u8) -> bool {
    (0x30 <= b <= 0x39) || (0x41 <= b <= 0x5a) || (0x61 <= b <= 0x7a)
}

/// A `tchar` of RFC 9110: the bytes a token may hold.
pub open spec fn is_token_byte(b: u8) -> bool {
    // ! # $ % & ' * + - . ^ _ ` | ~
    is_ascii_alphanumeric(b) || b == 0x21 || b == 0x23 || b == 0x24 || b == 0x25 || b == 0x26
        || b == 0x27 || b == 0x2a || b == 0x2b || b == 0x2d || b == 0x2e || b == 0x5e || b == 0x5f
        || b == 0x60 || b == 0x7c || b == 0x7e
}

/// A byte a field value or reason phrase may hold: tab, space, visible ASCII
/// or any byte of 0x80 and above.
pub open spec fn is_field_value_byte(b: u8) -> bool {
    b == HTAB || b == SP || (0x21 <= b <= 0x7e) || b >= 0x80
}

pub open spec fn is_blank(b: u8) -> bool {
    b == SP || b == HTAB
}

pub open spec fn is_token(s: Seq<u8>) -> bool {
    s.len() > 0 && forall|i: int| 0 <= i < s.len() ==> is_token_byte(#[trigger] s[i])
}

pub open spec fn all_field_value_bytes(s: Seq<u8>) -> bool {
    forall|i: int| 0 <= i < s.len() ==> is_field_value_byte(#[trigger] s[i])
}

/// The lower-case form of an ASCII byte; other bytes are unchanged.
pub open spec fn ascii_lower(b: u8) -> u8 {
    if 0x41 <= b <= 0x5a {
        (b + 32) as u8
    } else {
        b
    }
}

/// `a` and `b` are equal up to ASCII case.
pub open spec fn eq_ignore_ascii_case(a: Seq<u8>, b: Seq<u8>) -> bool {
    a.len() == b.len() && forall|i: int| 0 <= i < a.len() ==> ascii_lower(#[trigger] a[i]) == ascii_lower(b[i])
}

/// The index of the first `b` in `s` at or after `start`, or `s.len()`.
pub open spec fn next_byte(s: Seq<u8>, start: int, b: u8) -> int
    decreases s.len() - start,
{
    if start < 0 || start >= s.len() {
        s.len() as int
    } else if s[start] == b {
        start
    } else {
        next_byte(s, start + 1, b)
    }
}

pub proof fn lemma_next_byte_bounds(s: Seq<u8>, start: int, b: u8)
    requires
        0 <= start <= s.len(),
    ensures
        start <= next_byte(s, start, b) <= s.len(),
        next_byte(s, start, b) < s.len() ==> s[next_byte(s, start, b)] == b,
        forall|i: int| start <= i < next_byte(s, start, b) ==> s[i] != b,
    decreases s.len() - start,
{
    if start < s.len() && s[start] != b {
        lemma_next_byte_bounds(s, start + 1, b);
    }
}

/// The first index at or after `start` of non-blank bytes, or `s.len()`.
pub open spec fn skip_blanks_forward(s: Seq<u8>, start: int) -> int
    decreases s.len() - start,
{
    if 0 <= start < s.len() && is_blank(s[start]) {
        skip_blanks_forward(s, start + 1)
    } else {
        start
    }
}

/// The end of `s[lower..end]` once trailing blanks are dropped.
pub open spec fn skip_blanks_backward(s: Seq<u8>, lower: int, end: int) -> int
    decreases end - lower,
{
    if lower < end && 0 < end <= s.len() && is_blank(s[end - 1]) {
        skip_blanks_backward(s, lower, end - 1)
    } else {
        end
    }
}

/// `s` without leading and trailing spaces and tabs.
pub open spec fn trim(s: Seq<u8>) -> Seq<u8> {
    let start = skip_blanks_forward(s, 0);
    s.subrange(start, skip_blanks_backward(s, start, s.len() as int))
}

/// `s` without one trailing carriage return.
pub open spec fn strip_cr(s: Seq<u8>) -> Seq<u8> {
    if s.len() > 0 && s.last() == CR {
        s.drop_last()
    } else {
        s
    }
}

/// The bytes `HTTP/1.0`.
pub open spec fn http10_bytes() -> Seq<u8> {
    seq![0x48u8, 0x54, 0x54, 0x50, 0x2f, 0x31, 0x2e, 0x30]
}

/// The bytes `HTTP/1.1`.
pub open spec fn http11_bytes() -> Seq<u8> {
    seq![0x48u8, 0x54, 0x54, 0x50, 0x2f, 0x31, 0x2e, 0x31]
}

/// The bytes `connection`.
pub open spec fn connection_bytes() -> Seq<u8> {
    seq![0x63u8, 0x6f, 0x6e, 0x6e, 0x65, 0x63, 0x74, 0x69, 0x6f, 0x6e]
}

/// The bytes `close`.
pub open spec fn close_bytes() -> Seq<u8> {
    seq![0x63u8, 0x6c, 0x6f, 0x73, 0x65]
}

/// The bytes `keep-alive`.
pub open spec fn keep_alive_bytes() -> Seq<u8> {
    seq![0x6bu8, 0x65, 0x65, 0x70, 0x2d, 0x61, 0x6c, 0x69, 0x76, 0x65]
}

pub open spec fn starts_with(s: Seq<u8>, prefix: Seq<u8>) -> bool {
    s.len() >= prefix.len() && s.subrange(0, prefix.len() as int) == prefix
}

pub open spec fn is_digit(b: u8) -> bool {
    0x30 <= b <= 0x39
}

/// The value of the three decimal digits `s[i..i + 3]`.
pub open spec fn three_digit_value(s: Seq<u8>, i: int) -> int {
    (s[i] - 0x30) * 100 + (s[i + 1] - 0x30) * 10 + (s[i + 2] - 0x30)
}

/// The outcome of parsing a status line: `HTTP/1.0` or `HTTP/1.1`, one
/// space, three digits, one space, then a reason phrase of field-value bytes,
/// with a status from 100 to 599.
pub open spec fn spec_parse_status_line(line: Seq<u8>) -> Result<(HttpVersion, u16), HttpError> {
    if !starts_with(line, http10_bytes()) && !starts_with(line, http11_bytes()) {
        Err(HttpError::UnsupportedVersion)
    } else {
        let version = if starts_with(line, http10_bytes()) { HttpVersion::Http10 } else { HttpVersion::Http11 };
        if line.len() <= 8 || line[8] != SP {
            Err(HttpError::InvalidStatusSeparator)
        } else if line.len() <= 12 || !is_digit(line[9]) || !is_digit(line[10]) || !is_digit(line[11])
            || line[12] != SP {
            Err(HttpError::InvalidStatus)
        } else {
            let status = three_digit_value(line, 9) as u16;
            if !(100 <= status <= 599) {
                Err(HttpError::StatusOutOfRange(status))
            } else if !all_field_value_bytes(line.subrange(13, line.len() as int)) {
                Err(HttpError::InvalidReasonPhrase)
            } else {
                Ok((version, status))
            }
        }
    }
}

/// The Connection options after the comma-separated list `value[pos..]`,
/// each entry trimmed, must be a non-empty token.
pub open spec fn connection_options_outcome(value: Seq<u8>, pos: int, options: ConnectionOptions) -> Result<ConnectionOptions, HttpError>
    decreases value.len() + 1 - pos,
{
    if pos < 0 || pos > value.len() {
        Ok(options)
    } else {
        let end = next_byte(value, pos, COMMA);
        proof {
            lemma_next_byte_bounds(value, pos, COMMA);
        }
        let token = trim(value.subrange(pos, end));
        if !is_token(token) {
            Err(HttpError::InvalidConnectionOption)
        } else {
            connection_options_outcome(
                value,
                end + 1,
                ConnectionOptions {
                    close: options.close || eq_ignore_ascii_case(token, close_bytes()),
                    keep_alive: options.keep_alive || eq_ignore_ascii_case(token, keep_alive_bytes()),
                },
            )
        }
    }
}

/// The outcome of one header line (carriage return already stripped): an
/// empty line changes nothing; otherwise `name:value` with a token name and a
/// value of field-value bytes, and a `Connection` field adds its options.
pub open spec fn header_line_outcome(line: Seq<u8>, options: ConnectionOptions) -> Result<ConnectionOptions, HttpError> {
    if line.len() == 0 {
        Ok(options)
    } else {
        let colon = next_byte(line, 0, COLON);
        if colon == line.len() {
            Err(HttpError::MissingColon)
        } else {
            let name = line.subrange(0, colon);
            let raw_value = line.subrange(colon + 1, line.len() as int);
            if !is_token(name) {
                Err(HttpError::InvalidFieldName)
            } else if !all_field_value_bytes(raw_value) {
                Err(HttpError::InvalidFieldValue)
            } else if eq_ignore_ascii_case(name, connection_bytes()) {
                connection_options_outcome(trim(raw_value), 0, options)
            } else {
                Ok(options)
            }
        }
    }
}

/// The outcome of the header lines of `block` from the line starting at
/// `pos` on; lines are split at line feeds.
pub open spec fn header_lines_outcome(block: Seq<u8>, pos: int, options: ConnectionOptions) -> Result<ConnectionOptions, HttpError>
    decreases block.len() + 1 - pos,
{
    if pos < 0 || pos > block.len() {
        Ok(options)
    } else {
        let end = next_byte(block, pos, LF);
        proof {
            lemma_next_byte_bounds(block, pos, LF);
        }
        match header_line_outcome(strip_cr(block.subrange(pos, end)), options) {
            Err(error) => Err(error),
            Ok(next) => header_lines_outcome(block, end + 1, next),
        }
    }
}

/// `s[i..i + 4]` is CR LF CR LF.
pub open spec fn is_terminator_at(s: Seq<u8>, i: int) -> bool {
    0 <= i && i + 4 <= s.len() && s[i] == CR && s[i + 1] == LF && s[i + 2] == CR && s[i + 3] == LF
}

/// The first index at or after `start` where CR LF CR LF begins.
pub open spec fn find_terminator(s: Seq<u8>, start: int) -> Option<int>
    decreases s.len() - start,
{
    if start < 0 || start + 4 > s.len() {
        None
    } else if is_terminator_at(s, start) {
        Some(start)
    } else {
        find_terminator(s, start + 1)
    }
}

/// Every carriage return is followed by a line feed and every line feed
/// follows a carriage return.
pub open spec fn line_endings_valid(block: Seq<u8>) -> bool {
    forall|i: int|
        0 <= i < block.len() ==> {
            &&& (#[trigger] block[i] == CR ==> i + 1 < block.len() && block[i + 1] == LF)
            &&& (block[i] == LF ==> i > 0 && block[i - 1] == CR)
        }
}

/// The connection stays open after a final response: HTTP/1.1 unless it
/// says `close`, HTTP/1.0 only if it says `keep-alive` and not `close`.
pub open spec fn is_persistent(version: HttpVersion, options: ConnectionOptions) -> bool {
    match version {
        HttpVersion::Http11 => !options.close,
        HttpVersion::Http10 => options.keep_alive && !options.close,
    }
}

/// The outcome of validating the header block that ends at the first CR LF
/// CR LF of `headers`: its status when the block is well formed, its status
/// is final (or informational, where allowed) and a final response keeps
/// the connection open; otherwise the first fault met, in this order.
pub open spec fn spec_validate_response_block(headers: Seq<u8>, allow_informational: bool) -> Result<u16, HttpError> {
    match find_terminator(headers, 0) {
        None => Err(HttpError::MissingTerminator),
        Some(header_end) => {
            let block = headers.subrange(0, header_end);
            if !line_endings_valid(block) {
                Err(HttpError::InvalidLineEnding)
            } else {
                let first_end = next_byte(block, 0, LF);
                match spec_parse_status_line(strip_cr(block.subrange(0, first_end))) {
                    Err(error) => Err(error),
                    Ok((version, status)) => {
                        if !((200 <= status <= 599) || (allow_informational && 100 <= status <= 199)) {
                            Err(HttpError::NonFinalStatus(status))
                        } else {
                            match header_lines_outcome(
                                block,
                                first_end + 1,
                                ConnectionOptions { close: false, keep_alive: false },
                            ) {
                                Err(error) => Err(error),
                                Ok(options) => {
                                    if 100 <= status <= 199 {
                                        Ok(status)
                                    } else if is_persistent(version, options) {
                                        Ok(status)
                                    } else {
                                        Err(HttpError::NotPersistent)
                                    }
                                }
                            }
                        }
                    }
                }
            }
        }
    }
}

fn find_byte(s: &[u8], start: usize, b: u8) -> (end: usize)
    requires
        start <= s@.len(),
    ensures
        end == next_byte(s@, start as int, b),
        start <= end <= s@.len(),
{
    let mut i = start;
    while i < s.len() && s[i] != b
        invariant
            start <= i <= s@.len(),
            next_byte(s@, start as int, b) == next_byte(s@, i as int, b),
        decreases s@.len() - i,
    {
        i = i + 1;
    }
    i
}

/// `byte` may appear in a token.
pub fn is_http_token_byte(byte: u8) -> (r: bool)
    ensures
        r == is_token_byte(byte),
{
    (0x30 <= byte && byte <= 0x39) || (0x41 <= byte && byte <= 0x5a) || (0x61 <= byte && byte <= 0x7a)
        || byte == 0x21 || byte == 0x23 || byte == 0x24 || byte == 0x25 || byte == 0x26 || byte == 0x27
        || byte == 0x2a || byte == 0x2b || byte == 0x2d || byte == 0x2e || byte == 0x5e || byte == 0x5f
        || byte == 0x60 || byte == 0x7c || byte == 0x7e
}

/// `byte` may appear in a field value or a reason phrase.
pub fn is_http_field_value_byte(byte: u8) -> (r: bool)
    ensures
        r == is_field_value_byte(byte),
{
    byte == HTAB || byte == SP || (0x21 <= byte && byte <= 0x7e) || byte >= 0x80
}

fn is_http_token(s: &[u8]) -> (r: bool)
    ensures
        r == is_token(s@),
{
    if s.len() == 0 {
        return false;
    }
    let mut i: usize = 0;
    while i < s.len()
        invariant
            i <= s@.len(),
            forall|j: int| 0 <= j < i ==> is_token_byte(#[trigger] s@[j]),
        decreases s@.len() - i,
    {
        if !is_http_token_byte(s[i]) {
            return false;
        }
        i = i + 1;
    }
    true
}

fn are_field_value_bytes(s: &[u8]) -> (r: bool)
    ensures
        r == all_field_value_bytes(s@),
{
    let mut i: usize = 0;
    while i < s.len()
        invariant
            i <= s@.len(),
            forall|j: int| 0 <= j < i ==> is_field_value_byte(#[trigger] s@[j]),
        decreases s@.len() - i,
    {
        if !is_http_field_value_byte(s[i]) {
            return false;
        }
        i = i + 1;
    }
    true
}

/// Drops leading and trailing spaces and tabs.
pub fn trim_ascii(value: &[u8]) -> (r: &[u8])
    ensures
        r@ == trim(value@),
{
    let len = value.len();
    let mut start: usize = 0;
    while start < len && (value[start] == SP || value[start] == HTAB)
        invariant
            len == value@.len(),
            start <= len,
            skip_blanks_forward(value@, 0) == skip_blanks_forward(value@, start as int),
        decreases len - start,
    {
        start = start + 1;
    }
    let mut end: usize = len;
    while end > start && (value[end - 1] == SP || value[end - 1] == HTAB)
        invariant
            len == value@.len(),
            start <= end <= len,
            skip_blanks_forward(value@, 0) == start,
            skip_blanks_backward(value@, start as int, len as int) == skip_blanks_backward(
                value@,
                start as int,
                end as int,
            ),
        decreases end - start,
    {
        end = end - 1;
    }
    &value[start..end]
}

fn strip_carriage_return(line: &[u8]) -> (r: &[u8])
    ensures
        r@ == strip_cr(line@),
{
    let len = line.len();
    if len > 0 && line[len - 1] == CR {
        &line[0..len - 1]
    } else {
        line
    }
}

fn lower_byte(b: u8) -> (r: u8)
    ensures
        r == ascii_lower(b),
{
    if 0x41 <= b && b <= 0x5a {
        b + 32
    } else {
        b
    }
}

fn eq_ignore_case(a: &[u8], b: &[u8]) -> (r: bool)
    ensures
        r == eq_ignore_ascii_case(a@, b@),
{
    if a.len() != b.len() {
        return false;
    }
    let mut i: usize = 0;
    while i < a.len()
        invariant
            a@.len() == b@.len(),
            i <= a@.len(),
            forall|j: int| 0 <= j < i ==> ascii_lower(#[trigger] a@[j]) == ascii_lower(b@[j]),
        decreases a@.len() - i,
    {
        if lower_byte(a[i]) != lower_byte(b[i]) {
            return false;
        }
        i = i + 1;
    }
    true
}

fn has_prefix(s: &[u8], prefix: &[u8]) -> (r: bool)
    ensures
        r == starts_with(s@, prefix@),
{
    if s.len() < prefix.len() {
        return false;
    }
    let mut i: usize = 0;
    while i < prefix.len()
        invariant
            s@.len() >= prefix@.len(),
            i <= prefix@.len(),
            forall|j: int| 0 <= j < i ==> s@[j] == prefix@[j],
        decreases prefix@.len() - i,
    {
        if s[i] != prefix[i] {
            assert(s@.subrange(0, prefix@.len() as int)[i as int] != prefix@[i as int]);
            return false;
        }
        i = i + 1;
    }
    assert(s@.subrange(0, prefix@.len() as int) =~= prefix@);
    true
}

/// Parses an HTTP/1.0 or HTTP/1.1 status line into its version and status.
pub fn parse_status_line(line: &[u8]) -> (res: Result<(HttpVersion, u16), HttpError>)
    ensures
        res == spec_parse_status_line(line@),
{
    let http10: [u8; 8] = [0x48, 0x54, 0x54, 0x50, 0x2f, 0x31, 0x2e, 0x30];
    let http11: [u8; 8] = [0x48, 0x54, 0x54, 0x50, 0x2f, 0x31, 0x2e, 0x31];
    assert(http10@ =~= http10_bytes());
    assert(http11@ =~= http11_bytes());
    let version = if has_prefix(line, http10.as_slice()) {
        HttpVersion::Http10
    } else if has_prefix(line, http11.as_slice()) {
        HttpVersion::Http11
    } else {
        return Err(HttpError::UnsupportedVersion);
    };
    let len = line.len();
    if len <= 8 || line[8] != SP {
        return Err(HttpError::InvalidStatusSeparator);
    }
    if len <= 12 || !(0x30 <= line[9] && line[9] <= 0x39) || !(0x30 <= line[10] && line[10] <= 0x39)
        || !(0x30 <= line[11] && line[11] <= 0x39) || line[12] != SP {
        return Err(HttpError::InvalidStatus);
    }
    let status: u16 = ((line[9] - 0x30) as u16) * 100 + ((line[10] - 0x30) as u16) * 10 + ((line[11]
        - 0x30) as u16);
    if !(100 <= status && status <= 599) {
        return Err(HttpError::StatusOutOfRange(status));
    }
    if !are_field_value_bytes(&line[13..len]) {
        return Err(HttpError::InvalidReasonPhrase);
    }
    Ok((version, status))
}

fn connection_options(value: &[u8], options: ConnectionOptions) -> (res: Result<ConnectionOptions, HttpError>)
    ensures
        res == connection_options_outcome(value@, 0, options),
{
    let close: [u8; 5] = [0x63, 0x6c, 0x6f, 0x73, 0x65];
    let keep_alive: [u8; 10] = [0x6b, 0x65, 0x65, 0x70, 0x2d, 0x61, 0x6c, 0x69, 0x76, 0x65];
    assert(close@ =~= close_bytes());
    assert(keep_alive@ =~= keep_alive_bytes());
    let len = value.len();
    let mut pos: usize = 0;
    let mut current = options;
    loop
        invariant
            len == value@.len(),
            pos <= len,
            close@ == close_bytes(),
            keep_alive@ == keep_alive_bytes(),
            connection_options_outcome(value@, 0, options) == connection_options_outcome(
                value@,
                pos as int,
                current,
            ),
        decreases len - pos,
    {
        let end = find_byte(value, pos, COMMA);
        let token = trim_ascii(&value[pos..end]);
        if !is_http_token(token) {
            return Err(HttpError::InvalidConnectionOption);
        }
        current = ConnectionOptions {
            close: current.close || eq_ignore_case(token, close.as_slice()),
            keep_alive: current.keep_alive || eq_ignore_case(token, keep_alive.as_slice()),
        };
        if end == len {
            assert(connection_options_outcome(value@, end + 1, current) == Ok::<ConnectionOptions, HttpError>(current));
            return Ok(current);
        }
        pos = end + 1;
    }
}

fn header_line(line: &[u8], options: ConnectionOptions) -> (res: Result<ConnectionOptions, HttpError>)
    ensures
        res == header_line_outcome(line@, options),
{
    let len = line.len();
    if len == 0 {
        return Ok(options);
    }
    let colon = find_byte(line, 0, COLON);
    if colon == len {
        return Err(HttpError::MissingColon);
    }
    let name = &line[0..colon];
    let raw_value = &line[colon + 1..len];
    if !is_http_token(name) {
        return Err(HttpError::InvalidFieldName);
    }
    if !are_field_value_bytes(raw_value) {
        return Err(HttpError::InvalidFieldValue);
    }
    let connection: [u8; 10] = [0x63, 0x6f, 0x6e, 0x6e, 0x65, 0x63, 0x74, 0x69, 0x6f, 0x6e];
    assert(connection@ =~= connection_bytes());
    if eq_ignore_case(name, connection.as_slice()) {
        connection_options(trim_ascii(raw_value), options)
    } else {
        Ok(options)
    }
}

fn header_lines(block: &[u8], start: usize) -> (res: Result<ConnectionOptions, HttpError>)
    requires
        start <= block@.len(),
    ensures
        res == header_lines_outcome(block@, start as int, ConnectionOptions { close: false, keep_alive: false }),
{
    let len = block.len();
    let mut pos = start;
    let mut current = ConnectionOptions { close: false, keep_alive: false };
    loop
        invariant
            len == block@.len(),
            start <= pos <= len,
            header_lines_outcome(block@, start as int, ConnectionOptions { close: false, keep_alive: false })
                == header_lines_outcome(block@, pos as int, current),
        decreases len - pos,
    {
        let end = find_byte(block, pos, LF);
        let line = strip_carriage_return(&block[pos..end]);
        current = match header_line(line, current) {
            Err(error) => {
                return Err(error);
            },
            Ok(next) => next,
        };
        if end == len {
            assert(header_lines_outcome(block@, end + 1, current) == Ok::<ConnectionOptions, HttpError>(current));
            return Ok(current);
        }
        pos = end + 1;
    }
}

fn find_header_terminator(headers: &[u8]) -> (res: Option<usize>)
    ensures
        match res {
            Some(i) => find_terminator(headers@, 0) == Some(i as int) && i + 4 <= headers@.len(),
            None => find_terminator(headers@, 0) is None,
        },
{
    let len = headers.len();
    let mut i: usize = 0;
    while i < len && len - i >= 4
        invariant
            len == headers@.len(),
            i <= len,
            find_terminator(headers@, 0) == find_terminator(headers@, i as int),
        decreases len - i,
    {
        if headers[i] == CR && headers[i + 1] == LF && headers[i + 2] == CR && headers[i + 3] == LF {
            return Some(i);
        }
        i = i + 1;
    }
    None
}

fn has_valid_line_endings(block: &[u8]) -> (r: bool)
    ensures
        r == line_endings_valid(block@),
{
    let len = block.len();
    let mut i: usize = 0;
    while i < len
        invariant
            len == block@.len(),
            i <= len,
            forall|j: int|
                0 <= j < i ==> {
                    &&& (#[trigger] block@[j] == CR ==> j + 1 < len && block@[j + 1] == LF)
                    &&& (block@[j] == LF ==> j > 0 && block@[j - 1] == CR)
                },
        decreases len - i,
    {
        if block[i] == CR && !(i + 1 < len && block[i + 1] == LF) {
            return false;
        }
        if block[i] == LF && !(i > 0 && block[i - 1] == CR) {
            return false;
        }
        i = i + 1;
    }
    true
}

/// Validates the header block ending at the first CR LF CR LF of `headers`
/// and gives its status.
pub fn validate_http_response_block(headers: &[u8], allow_informational: bool) -> (res: Result<u16, HttpError>)
    ensures
        res == spec_validate_response_block(headers@, allow_informational),
{
    let header_end = match find_header_terminator(headers) {
        None => {
            return Err(HttpError::MissingTerminator);
        },
        Some(end) => end,
    };
    let block = &headers[0..header_end];
    if !has_valid_line_endings(block) {
        return Err(HttpError::InvalidLineEnding);
    }
    let first_end = find_byte(block, 0, LF);
    let (version, status) = match parse_status_line(strip_carriage_return(&block[0..first_end])) {
        Err(error) => {
            return Err(error);
        },
        Ok(parsed) => parsed,
    };
    if !((200 <= status && status <= 599) || (allow_informational && 100 <= status && status <= 199)) {
        return Err(HttpError::NonFinalStatus(status));
    }
    let options = if first_end == block.len() {
        ConnectionOptions { close: false, keep_alive: false }
    } else {
        match header_lines(block, first_end + 1) {
            Err(error) => {
                return Err(error);
            },
            Ok(options) => options,
        }
    };
    if 100 <= status && status <= 199 {
        return Ok(status);
    }
    let persistent = match version {
        HttpVersion::Http11 => !options.close,
        HttpVersion::Http10 => options.keep_alive && !options.close,
    };
    if !persistent {
        return Err(HttpError::NotPersistent);
    }
    Ok(status)
}

/// Validates an HTTP response status and the connection semantics needed by
/// the keepalive loop: a final status from 200 to 599 on a connection that
/// stays open.
pub fn validate_http_response(headers: &[u8]) -> (res: Result<(), HttpError>)
    ensures
        match spec_validate_response_block(headers@, false) {
            Ok(_) => res == Ok::<(), HttpError>(()),
            Err(error) => res == Err::<(), HttpError>(error),
        },
{
    match validate_http_response_block(headers, false) {
        Ok(_) => Ok(()),
        Err(error) => Err(error),
    }
}

/// `s` ends with CR LF CR LF.
pub open spec fn ends_with_terminator(s: Seq<u8>) -> bool {
    s.len() >= 4 && is_terminator_at(s, s.len() - 4)
}

/// What one more byte of a response being read means: more bytes are
/// needed, the block is too large, or a complete block was validated
/// (informational statuses allowed).
pub open spec fn header_byte_outcome(headers: Seq<u8>) -> Result<Option<u16>, HttpError> {
    if headers.len() > MAX_HTTP_HEADERS {
        Err(HttpError::HeadersTooLarge)
    } else if ends_with_terminator(headers) {
        match spec_validate_response_block(headers, true) {
            Ok(status) => Ok(Some(status)),
            Err(error) => Err(error),
        }
    } else {
        Ok(None)
    }
}

/// Appends one byte read from the HTTP peer to the pending response and
/// reports the status of the response once its header block is complete.
pub fn push_header_byte(headers: &mut Vec<u8>, byte: u8) -> (res: Result<Option<u16>, HttpError>)
    ensures
        final(headers)@ == old(headers)@.push(byte),
        res == header_byte_outcome(final(headers)@),
{
    headers.push(byte);
    let len = headers.len();
    if len > MAX_HTTP_HEADERS {
        return Err(HttpError::HeadersTooLarge);
    }
    if len >= 4 && headers[len - 4] == CR && headers[len - 3] == LF && headers[len - 2] == CR
        && headers[len - 1] == LF {
        match validate_http_response_block(headers.as_slice(), true) {
            Ok(status) => Ok(Some(status)),
            Err(error) => Err(error),
        }
    } else {
        Ok(None)
    }
}

/// How a validated response status steers the reading of responses.
#[derive(Clone, Copy, Debug, PartialEq, Eq, Structural)]
pub enum ResponseKind {
    /// A 1xx response: discard it and read the next one.
    Informational,
    /// The final response to the request.
    Final,
}

/// The role of a validated status: 101 Switching Protocols is refused, other
/// 1xx statuses are informational, the rest are final.
pub open spec fn spec_classify_response_status(status: u16) -> Result<ResponseKind, HttpError> {
    if status == 101 {
        Err(HttpError::SwitchingProtocols)
    } else if 100 <= status <= 199 {
        Ok(ResponseKind::Informational)
    } else {
        Ok(ResponseKind::Final)
    }
}

/// Classifies a validated response status.
pub fn classify_response_status(status: u16) -> (res: Result<ResponseKind, HttpError>)
    ensures
        res == spec_classify_response_status(status),
{
    if status == 101 {
        Err(HttpError::SwitchingProtocols)
    } else if 100 <= status && status <= 199 {
        Ok(ResponseKind::Informational)
    } else {
        Ok(ResponseKind::Final)
    }
}

/// The keepalive request sent to the HTTP endpoint.
pub open spec fn head_request_text(http: Endpoint) -> Seq<char> {
    "HEAD / HTTP/1.1\r\nHost: "@ + endpoint_text(http) + "\r\nConnection: keep-alive\r\n\r\n"@
}

/// Builds the persistent `HEAD /` request for the HTTP endpoint.
pub fn http_head_request(http: Endpoint) -> (request: String)
    ensures
        request@ == head_request_text(http),
{
    let mut request = String::new();
    request.append("HEAD / HTTP/1.1\r\nHost: ");
    push_endpoint(&mut request, http);
    request.append("\r\nConnection: keep-alive\r\n\r\n");
    assert(request@ =~= head_request_text(http));
    request
}

/// A response accepted as a keepalive reply has a final status from 200 to
/// 599, and reading a response with informational statuses allowed gives
/// the same outcome for every response whose status is final.
pub proof fn lemma_final_responses_agree(headers: Seq<u8>)
    ensures
        spec_validate_response_block(headers, false) matches Ok(status) ==> 200 <= status <= 599,
        spec_validate_response_block(headers, true) matches Ok(status) && status >= 200
            ==> spec_validate_response_block(headers, false) == spec_validate_response_block(headers, true),
        spec_validate_response_block(headers, false) is Ok ==> spec_validate_response_block(headers, true)
            == spec_validate_response_block(headers, false),
{
}

proof fn lemma_find_terminator_extends(headers: Seq<u8>, rest: Seq<u8>, start: int)
    requires
        0 <= start,
        find_terminator(headers, start) is Some,
    ensures
        find_terminator(headers + rest, start) == find_terminator(headers, start),
        start <= find_terminator(headers, start)->0,
        find_terminator(headers, start)->0 + 4 <= headers.len(),
    decreases headers.len() - start,
{
    let extended = headers + rest;
    if start + 4 <= headers.len() {
        assert(extended[start] == headers[start]);
        assert(extended[start + 1] == headers[start + 1]);
        assert(extended[start + 2] == headers[start + 2]);
        assert(extended[start + 3] == headers[start + 3]);
        if !is_terminator_at(headers, start) {
            lemma_find_terminator_extends(headers, rest, start + 1);
        }
    }
}

/// Validation looks only at the bytes up to the first CR LF CR LF: bytes
/// after it never change the outcome, so a reader that stops at the first
/// terminator and a check of any longer buffer agree.
pub proof fn lemma_validation_ignores_trailing_bytes(headers: Seq<u8>, rest: Seq<u8>, allow_informational: bool)
    requires
        find_terminator(headers, 0) is Some,
    ensures
        spec_validate_response_block(headers + rest, allow_informational) == spec_validate_response_block(
            headers,
            allow_informational,
        ),
{
    lemma_find_terminator_extends(headers, rest, 0);
    let header_end = find_terminator(headers, 0)->0;
    assert((headers + rest).subrange(0, header_end) =~= headers.subrange(0, header_end));
}

/// The options gathered so far never decide whether a Connection option list
/// is refused.
proof fn lemma_option_errors_ignore_options(value: Seq<u8>, pos: int, a: ConnectionOptions, b: ConnectionOptions)
    ensures
        connection_options_outcome(value, pos, a) is Ok <==> connection_options_outcome(value, pos, b) is Ok,
    decreases value.len() + 1 - pos,
{
    if 0 <= pos <= value.len() {
        let end = next_byte(value, pos, COMMA);
        lemma_next_byte_bounds(value, pos, COMMA);
        let token = trim(value.subrange(pos, end));
        if is_token(token) {
            lemma_option_errors_ignore_options(
                value,
                end + 1,
                ConnectionOptions {
                    close: a.close || eq_ignore_ascii_case(token, close_bytes()),
                    keep_alive: a.keep_alive || eq_ignore_ascii_case(token, keep_alive_bytes()),
                },
                ConnectionOptions {
                    close: b.close || eq_ignore_ascii_case(token, close_bytes()),
                    keep_alive: b.keep_alive || eq_ignore_ascii_case(token, keep_alive_bytes()),
                },
            );
        }
    }
}

/// Whether a header line is refused does not depend on the options gathered
/// from the lines before it.
pub proof fn lemma_line_errors_ignore_options(line: Seq<u8>, a: ConnectionOptions, b: ConnectionOptions)
    ensures
        header_line_outcome(line, a) is Ok <==> header_line_outcome(line, b) is Ok,
{
    if line.len() > 0 {
        let colon = next_byte(line, 0, COLON);
        lemma_next_byte_bounds(line, 0, COLON);
        if colon < line.len() {
            lemma_option_errors_ignore_options(trim(line.subrange(colon + 1, line.len() as int)), 0, a, b);
        }
    }
}

/// The header line of `block` that starts at `start` (carriage return stripped).
pub open spec fn line_at(block: Seq<u8>, start: int) -> Seq<u8> {
    strip_cr(block.subrange(start, next_byte(block, start, LF)))
}

/// A header line is malformed when it is refused on its own: it has no
/// colon, its name is empty or not a token, its value holds a byte outside
/// the field-value set, or it is a Connection line with an empty or
/// non-token option.
pub open spec fn is_malformed_header_line(line: Seq<u8>) -> bool {
    header_line_outcome(line, ConnectionOptions { close: false, keep_alive: false }) is Err
}

proof fn lemma_lines_ok_each(block: Seq<u8>, pos: int, options: ConnectionOptions, p: int)
    requires
        0 <= pos <= p <= block.len(),
        p == pos || block[p - 1] == LF,
        header_lines_outcome(block, pos, options) is Ok,
    ensures
        !is_malformed_header_line(line_at(block, p)),
    decreases block.len() + 1 - pos,
{
    let end = next_byte(block, pos, LF);
    lemma_next_byte_bounds(block, pos, LF);
    let none = ConnectionOptions { close: false, keep_alive: false };
    if p == pos {
        lemma_line_errors_ignore_options(line_at(block, p), options, none);
    } else {
        assert(end <= p - 1);
        match header_line_outcome(line_at(block, pos), options) {
            Ok(next) => {
                lemma_lines_ok_each(block, end + 1, next, p);
            },
            Err(_) => {},
        }
    }
}

/// A block whose line endings are not all CR LF is refused.
pub proof fn lemma_bad_line_ending_refused(headers: Seq<u8>, allow_informational: bool)
    requires
        find_terminator(headers, 0) matches Some(header_end) && !line_endings_valid(headers.subrange(0, header_end)),
    ensures
        spec_validate_response_block(headers, allow_informational) == Err::<u16, HttpError>(HttpError::InvalidLineEnding),
{
}

/// A block with a malformed header line anywhere after the status line is
/// refused.
pub proof fn lemma_malformed_header_line_refused(headers: Seq<u8>, allow_informational: bool, line_start: int)
    requires
        find_terminator(headers, 0) matches Some(header_end) && {
            let block = headers.subrange(0, header_end);
            &&& next_byte(block, 0, LF) < line_start <= block.len()
            &&& block[line_start - 1] == LF
            &&& is_malformed_header_line(line_at(block, line_start))
        },
    ensures
        spec_validate_response_block(headers, allow_informational) is Err,
{
    let header_end = find_terminator(headers, 0)->0;
    let block = headers.subrange(0, header_end);
    let first_end = next_byte(block, 0, LF);
    lemma_next_byte_bounds(block, 0, LF);
    let none = ConnectionOptions { close: false, keep_alive: false };
    if header_lines_outcome(block, first_end + 1, none) is Ok {
        lemma_lines_ok_each(block, first_end + 1, none, line_start);
    }
}

/// `q` starts an entry of the comma-separated list `value[pos..]`.
pub open spec fn is_option_start(value: Seq<u8>, pos: int, q: int) -> bool {
    pos <= q <= value.len() && (q == pos || value[q - 1] == COMMA)
}

/// The trimmed list entry of `value` that starts at `q`.
pub open spec fn option_at(value: Seq<u8>, q: int) -> Seq<u8> {
    trim(value.subrange(q, next_byte(value, q, COMMA)))
}

/// Some entry of the list `value[pos..]` equals `word` up to ASCII case.
pub open spec fn lists_option(value: Seq<u8>, pos: int, word: Seq<u8>) -> bool {
    exists|q: int| is_option_start(value, pos, q) && eq_ignore_ascii_case(#[trigger] option_at(value, q), word)
}

proof fn lemma_lists_option_step(value: Seq<u8>, pos: int, word: Seq<u8>)
    requires
        0 <= pos <= value.len(),
    ensures
        ({
            let end = next_byte(value, pos, COMMA);
            lists_option(value, pos, word) == (eq_ignore_ascii_case(option_at(value, pos), word) || (end
                < value.len() && lists_option(value, end + 1, word)))
        }),
{
    let end = next_byte(value, pos, COMMA);
    lemma_next_byte_bounds(value, pos, COMMA);
    if lists_option(value, pos, word) {
        let q = choose|q: int| is_option_start(value, pos, q) && eq_ignore_ascii_case(#[trigger] option_at(value, q), word);
        if q != pos {
            assert(q - 1 >= end);
            assert(is_option_start(value, end + 1, q));
        }
    }
    if end < value.len() && lists_option(value, end + 1, word) {
        let q = choose|q: int| is_option_start(value, end + 1, q) && eq_ignore_ascii_case(#[trigger] option_at(value, q), word);
        assert(is_option_start(value, pos, q));
    }
    if eq_ignore_ascii_case(option_at(value, pos), word) {
        assert(is_option_start(value, pos, pos));
    }
}

proof fn lemma_options_gathered(value: Seq<u8>, pos: int, options: ConnectionOptions)
    requires
        0 <= pos <= value.len(),
        connection_options_outcome(value, pos, options) is Ok,
    ensures
        connection_options_outcome(value, pos, options)->Ok_0.close == (options.close || lists_option(value, pos, close_bytes())),
        connection_options_outcome(value, pos, options)->Ok_0.keep_alive == (options.keep_alive || lists_option(value, pos, keep_alive_bytes())),
    decreases value.len() + 1 - pos,
{
    let end = next_byte(value, pos, COMMA);
    lemma_next_byte_bounds(value, pos, COMMA);
    lemma_lists_option_step(value, pos, close_bytes());
    lemma_lists_option_step(value, pos, keep_alive_bytes());
    let token = trim(value.subrange(pos, end));
    let next = ConnectionOptions {
        close: options.close || eq_ignore_ascii_case(token, close_bytes()),
        keep_alive: options.keep_alive || eq_ignore_ascii_case(token, keep_alive_bytes()),
    };
    if end < value.len() {
        lemma_options_gathered(value, end + 1, next);
    }
}

/// `line` is a `Connection` field whose option list has an entry equal to
/// `word` up to ASCII case.
pub open spec fn connection_line_lists(line: Seq<u8>, word: Seq<u8>) -> bool {
    let colon = next_byte(line, 0, COLON);
    &&& line.len() > 0
    &&& colon < line.len()
    &&& eq_ignore_ascii_case(line.subrange(0, colon), connection_bytes())
    &&& lists_option(trim(line.subrange(colon + 1, line.len() as int)), 0, word)
}

/// `p` starts a line of `block` at or after the line starting at `pos`.
pub open spec fn is_line_start(block: Seq<u8>, pos: int, p: int) -> bool {
    pos <= p <= block.len() && (p == pos || block[p - 1] == LF)
}

/// Some Connection line of `block` from the line at `pos` on lists `word`.
pub open spec fn block_lists_option(block: Seq<u8>, pos: int, word: Seq<u8>) -> bool {
    exists|p: int| is_line_start(block, pos, p) && connection_line_lists(#[trigger] line_at(block, p), word)
}

proof fn lemma_line_options_gathered(line: Seq<u8>, options: ConnectionOptions)
    requires
        header_line_outcome(line, options) is Ok,
    ensures
        header_line_outcome(line, options)->Ok_0.close == (options.close || connection_line_lists(line, close_bytes())),
        header_line_outcome(line, options)->Ok_0.keep_alive == (options.keep_alive || connection_line_lists(line, keep_alive_bytes())),
{
    if line.len() > 0 {
        let colon = next_byte(line, 0, COLON);
        lemma_next_byte_bounds(line, 0, COLON);
        if colon < line.len() && eq_ignore_ascii_case(line.subrange(0, colon), connection_bytes()) {
            let value = trim(line.subrange(colon + 1, line.len() as int));
            lemma_options_gathered(value, 0, options);
        }
    }
}

proof fn lemma_block_lists_step(block: Seq<u8>, pos: int, word: Seq<u8>)
    requires
        0 <= pos <= block.len(),
    ensures
        ({
            let end = next_byte(block, pos, LF);
            block_lists_option(block, pos, word) == (connection_line_lists(line_at(block, pos), word) || (end
                < block.len() && block_lists_option(block, end + 1, word)))
        }),
{
    let end = next_byte(block, pos, LF);
    lemma_next_byte_bounds(block, pos, LF);
    if block_lists_option(block, pos, word) {
        let p = choose|p: int| is_line_start(block, pos, p) && connection_line_lists(#[trigger] line_at(block, p), word);
        if p != pos {
            assert(p - 1 >= end);
            assert(is_line_start(block, end + 1, p));
        }
    }
    if end < block.len() && block_lists_option(block, end + 1, word) {
        let p = choose|p: int| is_line_start(block, end + 1, p) && connection_line_lists(#[trigger] line_at(block, p), word);
        assert(is_line_start(block, pos, p));
    }
    if connection_line_lists(line_at(block, pos), word) {
        assert(is_line_start(block, pos, pos));
    }
}

proof fn lemma_lines_gathered(block: Seq<u8>, pos: int, options: ConnectionOptions)
    requires
        0 <= pos <= block.len(),
        header_lines_outcome(block, pos, options) is Ok,
    ensures
        header_lines_outcome(block, pos, options)->Ok_0.close == (options.close || block_lists_option(block, pos, close_bytes())),
        header_lines_outcome(block, pos, options)->Ok_0.keep_alive == (options.keep_alive || block_lists_option(block, pos, keep_alive_bytes())),
    decreases block.len() + 1 - pos,
{
    let end = next_byte(block, pos, LF);
    lemma_next_byte_bounds(block, pos, LF);
    lemma_block_lists_step(block, pos, close_bytes());
    lemma_block_lists_step(block, pos, keep_alive_bytes());
    lemma_line_options_gathered(line_at(block, pos), options);
    let next = header_line_outcome(line_at(block, pos), options)->Ok_0;
    if end < block.len() {
        lemma_lines_gathered(block, end + 1, next);
    }
}

/// The options a block's header lines gather are exactly what its
/// Connection lines list: `close` is set when some Connection line lists
/// `close` (in any ASCII case), `keep-alive` likewise.
pub proof fn lemma_connection_options_gathered(block: Seq<u8>, pos: int, options: ConnectionOptions)
    requires
        0 <= pos <= block.len(),
        header_lines_outcome(block, pos, ConnectionOptions { close: false, keep_alive: false })
            == Ok::<ConnectionOptions, HttpError>(options),
    ensures
        options.close == block_lists_option(block, pos, close_bytes()),
        options.keep_alive == block_lists_option(block, pos, keep_alive_bytes()),
{
    lemma_lines_gathered(block, pos, ConnectionOptions { close: false, keep_alive: false });
}

proof fn lemma_accepted_options_are_tokens(value: Seq<u8>, pos: int, options: ConnectionOptions, q: int)
    requires
        0 <= pos <= value.len(),
        is_option_start(value, pos, q),
        connection_options_outcome(value, pos, options) is Ok,
    ensures
        is_token(option_at(value, q)),
    decreases value.len() + 1 - pos,
{
    let end = next_byte(value, pos, COMMA);
    lemma_next_byte_bounds(value, pos, COMMA);
    if q != pos {
        assert(q - 1 >= end);
        let token = trim(value.subrange(pos, end));
        let next = ConnectionOptions {
            close: options.close || eq_ignore_ascii_case(token, close_bytes()),
            keep_alive: options.keep_alive || eq_ignore_ascii_case(token, keep_alive_bytes()),
        };
        lemma_accepted_options_are_tokens(value, end + 1, next, q);
    }
}

/// Each defect of a header line makes it malformed: no colon, an empty or
/// non-token name, a value byte outside the field-value set, or a
/// Connection line with an empty or non-token option.
pub proof fn lemma_header_line_defects(line: Seq<u8>)
    requires
        line.len() > 0,
        ({
            let colon = next_byte(line, 0, COLON);
            let name = line.subrange(0, colon);
            let raw_value = line.subrange(colon + 1, line.len() as int);
            ||| colon == line.len()
            ||| name.len() == 0
            ||| exists|i: int| 0 <= i < name.len() && !is_token_byte(#[trigger] name[i])
            ||| exists|i: int| 0 <= i < raw_value.len() && !is_field_value_byte(#[trigger] raw_value[i])
            ||| (eq_ignore_ascii_case(name, connection_bytes()) && exists|q: int|
                is_option_start(trim(raw_value), 0, q) && !is_token(#[trigger] option_at(trim(raw_value), q)))
        }),
    ensures
        is_malformed_header_line(line),
{
    let colon = next_byte(line, 0, COLON);
    lemma_next_byte_bounds(line, 0, COLON);
    let none = ConnectionOptions { close: false, keep_alive: false };
    if colon < line.len() {
        let name = line.subrange(0, colon);
        let raw_value = line.subrange(colon + 1, line.len() as int);
        if is_token(name) && all_field_value_bytes(raw_value) && eq_ignore_ascii_case(name, connection_bytes()) {
            let value = trim(raw_value);
            if connection_options_outcome(value, 0, none) is Ok {
                let q = choose|q: int| is_option_start(value, 0, q) && !is_token(#[trigger] option_at(value, q));
                lemma_accepted_options_are_tokens(value, 0, none, q);
            }
        }
    }
}

/// The persistence rule: for a well-formed block with a final status, an
/// HTTP/1.1 reply is accepted unless some Connection line lists `close`; an
/// HTTP/1.0 reply only if some Connection line lists `keep-alive` and none
/// lists `close` (options compared up to ASCII case); otherwise it is
/// refused as not persistent.
pub proof fn lemma_persistence_rule(headers: Seq<u8>, allow_informational: bool, version: HttpVersion, status: u16)
    requires
        find_terminator(headers, 0) matches Some(header_end) && {
            let block = headers.subrange(0, header_end);
            let first_end = next_byte(block, 0, LF);
            &&& line_endings_valid(block)
            &&& spec_parse_status_line(strip_cr(block.subrange(0, first_end))) == Ok::<(HttpVersion, u16), HttpError>(
                (version, status),
            )
            &&& header_lines_outcome(block, first_end + 1, ConnectionOptions { close: false, keep_alive: false }) is Ok
        },
        200 <= status <= 599,
    ensures
        ({
            let block = headers.subrange(0, find_terminator(headers, 0)->0);
            let lines = next_byte(block, 0, LF) + 1;
            let close = block_lists_option(block, lines, close_bytes());
            let keep_alive = block_lists_option(block, lines, keep_alive_bytes());
            spec_validate_response_block(headers, allow_informational) == if (version == HttpVersion::Http11
                && !close) || (version == HttpVersion::Http10 && keep_alive && !close) {
                Ok::<u16, HttpError>(status)
            } else {
                Err::<u16, HttpError>(HttpError::NotPersistent)
            }
        }),
{
    let block = headers.subrange(0, find_terminator(headers, 0)->0);
    let first_end = next_byte(block, 0, LF);
    lemma_next_byte_bounds(block, 0, LF);
    let options = header_lines_outcome(block, first_end + 1, ConnectionOptions { close: false, keep_alive: false })->Ok_0;
    if first_end < block.len() {
        lemma_connection_options_gathered(block, first_end + 1, options);
    } else {
        assert(!block_lists_option(block, first_end + 1, close_bytes()));
        assert(!block_lists_option(block, first_end + 1, keep_alive_bytes()));
    }
}

/// What reading `stream` from index `i` on gives when each byte goes
/// through `push_header_byte` onto `headers` and each completed block's
/// status through `classify_response_status`, an informational block being
/// discarded: the final status and the number of bytes consumed, a refusal,
/// or `Ok(None)` when the stream ends first.
pub open spec fn read_final_response(stream: Seq<u8>, i: int, headers: Seq<u8>) -> Result<Option<(u16, int)>, HttpError>
    decreases stream.len() - i,
{
    if i < 0 || i >= stream.len() {
        Ok(None)
    } else {
        let pending = headers.push(stream[i]);
        match header_byte_outcome(pending) {
            Err(error) => Err(error),
            Ok(None) => read_final_response(stream, i + 1, pending),
            Ok(Some(status)) => match spec_classify_response_status(status) {
                Err(error) => Err(error),
                Ok(ResponseKind::Final) => Ok(Some((status, i + 1))),
                Ok(ResponseKind::Informational) => read_final_response(stream, i + 1, Seq::empty()),
            },
        }
    }
}

/// One response header block as sent: at most `MAX_HTTP_HEADERS` bytes,
/// ending at its first CR LF CR LF.
pub open spec fn is_response_block(block: Seq<u8>) -> bool {
    block.len() <= MAX_HTTP_HEADERS && block.len() >= 4 && find_terminator(block, 0) == Some(block.len() - 4)
}

proof fn lemma_no_earlier_terminator(s: Seq<u8>, start: int, k: int)
    requires
        0 <= start <= k,
        find_terminator(s, start) matches Some(e) && k < e,
    ensures
        !is_terminator_at(s, k),
    decreases k - start,
{
    if k > start {
        lemma_no_earlier_terminator(s, start + 1, k);
    }
}

proof fn lemma_found_terminator(s: Seq<u8>, start: int)
    requires
        find_terminator(s, start) is Some,
    ensures
        is_terminator_at(s, find_terminator(s, start)->0),
    decreases s.len() - start,
{
    if start >= 0 && start + 4 <= s.len() && !is_terminator_at(s, start) {
        lemma_found_terminator(s, start + 1);
    }
}

proof fn lemma_read_within_block(stream: Seq<u8>, start: int, block: Seq<u8>, j: int)
    requires
        is_response_block(block),
        0 <= start,
        start + block.len() <= stream.len(),
        stream.subrange(start, start + block.len()) == block,
        0 <= j < block.len(),
    ensures
        read_final_response(stream, start + j, block.subrange(0, j)) == read_final_response(
            stream,
            start + block.len() - 1,
            block.subrange(0, block.len() - 1),
        ),
    decreases block.len() - j,
{
    if j < block.len() - 1 {
        let pending = block.subrange(0, j).push(stream[start + j]);
        assert(stream[start + j] == stream.subrange(start, start + block.len())[j]);
        assert(pending =~= block.subrange(0, j + 1));
        if ends_with_terminator(pending) {
            let k = pending.len() - 4;
            assert(pending[k] == block[k] && pending[k + 1] == block[k + 1] && pending[k + 2] == block[k + 2]
                && pending[k + 3] == block[k + 3]);
            lemma_no_earlier_terminator(block, 0, k);
        }
        assert(header_byte_outcome(pending) == Ok::<Option<u16>, HttpError>(None));
        lemma_read_within_block(stream, start, block, j + 1);
    }
}

proof fn lemma_read_block(stream: Seq<u8>, start: int, block: Seq<u8>, status: u16)
    requires
        is_response_block(block),
        spec_validate_response_block(block, true) == Ok::<u16, HttpError>(status),
        0 <= start,
        start + block.len() <= stream.len(),
        stream.subrange(start, start + block.len()) == block,
    ensures
        read_final_response(stream, start, Seq::empty()) == match spec_classify_response_status(status) {
            Err(error) => Err(error),
            Ok(ResponseKind::Final) => Ok(Some((status, start + block.len()))),
            Ok(ResponseKind::Informational) => read_final_response(stream, start + block.len(), Seq::empty()),
        },
{
    lemma_read_within_block(stream, start, block, 0);
    assert(block.subrange(0, 0) =~= Seq::<u8>::empty());
    let last = start + block.len() - 1;
    assert(stream[last] == stream.subrange(start, start + block.len())[block.len() - 1]);
    assert(block.subrange(0, block.len() - 1).push(stream[last]) =~= block);
    lemma_found_terminator(block, 0);
    assert(header_byte_outcome(block) == Ok::<Option<u16>, HttpError>(Some(status)));
}

proof fn lemma_read_blocks(
    stream: Seq<u8>,
    start: int,
    informational: Seq<Seq<u8>>,
    final_block: Seq<u8>,
    final_status: u16,
)
    requires
        forall|i: int|
            0 <= i < informational.len() ==> {
                &&& is_response_block(#[trigger] informational[i])
                &&& spec_validate_response_block(informational[i], true) matches Ok(status)
                &&& 100 <= status <= 199
                &&& status != 101
            },
        is_response_block(final_block),
        spec_validate_response_block(final_block, true) == Ok::<u16, HttpError>(final_status),
        200 <= final_status <= 599,
        0 <= start,
        start + informational.flatten().len() + final_block.len() <= stream.len(),
        stream.subrange(start, start + informational.flatten().len() + final_block.len()) == informational.flatten()
            + final_block,
    ensures
        read_final_response(stream, start, Seq::empty()) == Ok::<Option<(u16, int)>, HttpError>(
            Some((final_status, start + informational.flatten().len() + final_block.len())),
        ),
    decreases informational.len(),
{
    let flat = informational.flatten();
    if informational.len() == 0 {
        assert(flat =~= Seq::<u8>::empty());
        assert(stream.subrange(start, start + final_block.len()) =~= final_block);
        lemma_read_block(stream, start, final_block, final_status);
    } else {
        let first = informational[0];
        let others = informational.drop_first();
        assert(flat == first + others.flatten());
        let whole = stream.subrange(start, start + flat.len() + final_block.len());
        assert(stream.subrange(start, start + first.len()) =~= whole.subrange(0, first.len() as int));
        assert(whole.subrange(0, first.len() as int) =~= first);
        let status = spec_validate_response_block(first, true)->Ok_0;
        lemma_read_block(stream, start, first, status);
        let next = start + first.len();
        assert(stream.subrange(next, next + others.flatten().len() + final_block.len()) =~= whole.subrange(
            first.len() as int,
            whole.len() as int,
        ));
        assert(whole.subrange(first.len() as int, whole.len() as int) =~= others.flatten() + final_block);
        assert forall|i: int| 0 <= i < others.len() implies {
            &&& is_response_block(#[trigger] others[i])
            &&& spec_validate_response_block(others[i], true) matches Ok(status)
            &&& 100 <= status <= 199
            &&& status != 101
        } by {
            assert(others[i] == informational[i + 1]);
        }
        lemma_read_blocks(stream, next, others, final_block, final_status);
    }
}

/// The reading law: when the peer sends informational responses (1xx other
/// than 101) followed by a final response (200 to 599), each block ending at
/// its first CR LF CR LF and within the size limit, the reader ends with the
/// final status exactly at the end of the final block; the rest of the
/// stream is not consumed.
pub proof fn lemma_reads_through_informational_responses(
    informational: Seq<Seq<u8>>,
    final_block: Seq<u8>,
    rest: Seq<u8>,
    final_status: u16,
)
    requires
        forall|i: int|
            0 <= i < informational.len() ==> {
                &&& is_response_block(#[trigger] informational[i])
                &&& spec_validate_response_block(informational[i], true) matches Ok(status)
                &&& 100 <= status <= 199
                &&& status != 101
            },
        is_response_block(final_block),
        spec_validate_response_block(final_block, true) == Ok::<u16, HttpError>(final_status),
        200 <= final_status <= 599,
    ensures
        read_final_response(informational.flatten() + final_block + rest, 0, Seq::empty()) == Ok::<
            Option<(u16, int)>,
            HttpError,
        >(Some((final_status, (informational.flatten().len() + final_block.len()) as int))),
{
    let stream = informational.flatten() + final_block + rest;
    assert(stream.subrange(0, (informational.flatten().len() + final_block.len()) as int) =~= informational.flatten()
        + final_block);
    lemma_read_blocks(stream, 0, informational, final_block, final_status);
}

/// Field values and reason phrases may hold every byte except the ASCII
/// control bytes other than horizontal tab: so colons, quotes, commas and
/// all bytes of 0x80 and above are allowed, while NUL..0x1f (tab excepted)
/// and DEL are not.
pub proof fn lemma_field_value_bytes_are_non_controls()
    ensures
        forall|b: u8| is_field_value_byte(b) <==> (b == 0x09 || (b >= 0x20 && b != 0x7f)),
        is_field_value_byte(COLON),
        is_field_value_byte(COMMA),
        is_field_value_byte(SP),
        !is_field_value_byte(CR),
        !is_field_value_byte(LF),
{
}

/// A token byte is a visible ASCII byte other than the delimiters
/// `"(),/:;<=>?@[\]{}`.
pub proof fn lemma_token_bytes_are_visible_non_delimiters()
    ensures
        forall|b: u8|
            is_token_byte(b) <==> (0x21 <= b <= 0x7e && b != 0x22 && b != 0x28 && b != 0x29 && b != 0x2c && b != 0x2f
                && b != 0x3a && b != 0x3b && b != 0x3c && b != 0x3d && b != 0x3e && b != 0x3f && b != 0x40 && b != 0x5b
                && b != 0x5c && b != 0x5d && b != 0x7b && b != 0x7d),
{
}

} // verus!
