//! The HTTP exchange: reading the status line, the headers and the body of a
//! response off a stream, strictly in that order.

use vstd::prelude::*;
use vstd::string::StringExecFns;
use vstd::utf8::{decode_utf8, valid_utf8};
use crate::number::{number_of, parse_number};
use crate::response::{line_end, text_of, ResponseStream, ResponseView};
use crate::scan::{exactly, find_char, first_match, lemma_first_match};
use crate::text::{lowercase, slice_chars, to_chars, to_string, trim_bounds, trimmed};
use crate::url::{ErrorKind, URLError, URL};

verus! {

/// The three tokens of a status line.
pub struct StatusLine {
    pub version: Seq<char>,
    pub status: nat,
    pub explanation: Seq<char>,
}

/// `t` without the carriage return and line feed that end it, if they do.
pub open spec fn without_line_end(t: Seq<char>) -> Seq<char> {
    if t.len() >= 2 && t[t.len() - 2] == '\r' && t[t.len() - 1] == '\n' {
        t.subrange(0, t.len() - 2)
    } else {
        t
    }
}

/// The first three tokens of `line`, split at single spaces: the version,
/// the status, which is a number, and the explanation without its line end.
/// There are none where `line` has fewer than three tokens or the second
/// is no number.
pub open spec fn status_line_of(line: Seq<char>) -> Option<StatusLine> {
    let first = first_match(line, 0, exactly(' '));
    let second = first_match(line, first + 1, exactly(' '));
    let third = first_match(line, second + 1, exactly(' '));
    if first >= line.len() || second >= line.len() {
        None
    } else {
        match number_of(line.subrange(first + 1, second), usize::MAX as nat) {
            Some(status) => Some(
                StatusLine {
                    version: line.subrange(0, first),
                    status,
                    explanation: without_line_end(line.subrange(second + 1, third)),
                },
            ),
            None => None,
        }
    }
}

/// The key and the value of the header `line`, split at its first colon:
/// the key in lower case, the value trimmed and in lower case. There are
/// none where `line` has no colon.
pub open spec fn header_of(line: Seq<char>) -> Option<(Seq<char>, Seq<char>)> {
    let colon = first_match(line, 0, exactly(':'));
    if colon >= line.len() {
        None
    } else {
        Some(
            (
                lowercase(line.subrange(0, colon)),
                lowercase(trimmed(line.subrange(colon + 1, line.len() as int))),
            ),
        )
    }
}

/// No bytes encode the empty text.
pub proof fn lemma_no_bytes_no_text(bytes: Seq<u8>)
    requires
        bytes.len() == 0,
    ensures
        text_of(bytes) == Some(Seq::<char>::empty()),
{
    assert(valid_utf8(bytes));
    assert(decode_utf8(bytes) =~= Seq::<char>::empty());
}

/// The line that ends the headers.
pub open spec fn blank_line() -> Seq<char> {
    "\r\n"@
}

/// Reading header lines from position `pos` of `s` into `have`: the failure
/// if the blank line was not reached, the headers read up to the blank line
/// or up to the line that failed, and the position behind the last line
/// read. A line fails where it is no text or has no colon.
pub open spec fn headers_at(s: Seq<u8>, pos: int, have: Map<Seq<char>, Seq<char>>) -> (
    Option<ErrorKind>,
    Map<Seq<char>, Seq<char>>,
    int,
)
    decreases s.len() - pos,
{
    if pos < 0 || pos > s.len() {
        (Some(ErrorKind::IOFailure), have, pos)
    } else {
        let end = line_end(s, pos);
        match text_of(s.subrange(pos, end)) {
            None => (Some(ErrorKind::IOFailure), have, end),
            Some(line) => {
                if line == blank_line() {
                    (None, have, end)
                } else {
                    match header_of(line) {
                        Some(header) => {
                            proof {
                                lemma_first_match(s, pos, exactly(10u8));
                                if end == pos {
                                    lemma_no_bytes_no_text(s.subrange(pos, end));
                                }
                            }
                            headers_at(s, end, have.insert(header.0, header.1))
                        },
                        None => (Some(ErrorKind::MalformedHeader), have, end),
                    }
                }
            },
        }
    }
}

/// Whether the headers declare an encoding of the body.
pub open spec fn is_encoded(headers: Map<Seq<char>, Seq<char>>) -> bool {
    headers.contains_key("transfer-encoding"@) || headers.contains_key("content-encoding"@)
}

/// The record `r` with the tokens of a status line.
pub open spec fn with_status(r: ResponseView, line: StatusLine) -> ResponseView {
    ResponseView {
        version: line.version,
        status: line.status,
        explanation: line.explanation,
        headers: r.headers,
        body: r.body,
    }
}

/// The record `r` with other headers.
pub open spec fn with_headers(r: ResponseView, headers: Map<Seq<char>, Seq<char>>) -> ResponseView {
    ResponseView {
        version: r.version,
        status: r.status,
        explanation: r.explanation,
        headers,
        body: r.body,
    }
}

/// The record `r` with `more` behind its body.
pub open spec fn with_body(r: ResponseView, more: Seq<char>) -> ResponseView {
    ResponseView {
        version: r.version,
        status: r.status,
        explanation: r.explanation,
        headers: r.headers,
        body: r.body + more,
    }
}

/// One exchange read from position `pos` of `s` into the record `before`:
/// the failure if there is one, the record afterwards, and how far the
/// stream was read. The status line comes first, then the headers up to the
/// blank line, then the test for an encoding, and only then the body, which
/// is all that is left. Bytes that are no text fail the step that reads them.
pub open spec fn exchange(before: ResponseView, s: Seq<u8>, pos: int) -> (
    Option<ErrorKind>,
    ResponseView,
    int,
) {
    let head = line_end(s, pos);
    match text_of(s.subrange(pos, head)) {
        None => (Some(ErrorKind::IOFailure), before, head),
        Some(first) => match status_line_of(first) {
            None => (Some(ErrorKind::MalformedStatusLine), before, head),
            Some(line) => {
                let headers = headers_at(s, head, before.headers);
                let record = with_headers(with_status(before, line), headers.1);
                if headers.0 is Some {
                    (headers.0, record, headers.2)
                } else if is_encoded(headers.1) {
                    (Some(ErrorKind::UnsupportedEncoding), record, headers.2)
                } else {
                    match text_of(s.subrange(headers.2, s.len() as int)) {
                        Some(body) => (None, with_body(record, body), s.len() as int),
                        None => (Some(ErrorKind::IOFailure), record, s.len() as int),
                    }
                }
            },
        },
    }
}

/// A response whose status line and headers are read, and whose headers
/// hold `content-encoding` or `transfer-encoding`, fails as encoded, with
/// the stream read up to the end of the headers and no further, whatever
/// bytes follow, and with the body of the record as it was.
pub proof fn lemma_encoded_response_is_refused(before: ResponseView, s: Seq<u8>, pos: int)
    requires
        text_of(s.subrange(pos, line_end(s, pos))) is Some,
        status_line_of(text_of(s.subrange(pos, line_end(s, pos)))->0) is Some,
        headers_at(s, line_end(s, pos), before.headers).0 is None,
        is_encoded(headers_at(s, line_end(s, pos), before.headers).1),
    ensures
        exchange(before, s, pos).0 == Some(ErrorKind::UnsupportedEncoding),
        exchange(before, s, pos).1.body == before.body,
        exchange(before, s, pos).2 == headers_at(s, line_end(s, pos), before.headers).2,
{
}

/// The message that goes with a failure of an exchange.
pub open spec fn failure_message(kind: ErrorKind) -> Seq<char> {
    match kind {
        ErrorKind::MalformedStatusLine => "Error reading status line"@,
        ErrorKind::MalformedHeader => "Error reading header"@,
        ErrorKind::UnsupportedEncoding => "Unsupported encoded content"@,
        ErrorKind::IOFailure => "Error reading response"@,
        _ => Seq::empty(),
    }
}

/// Whether two URLs describe the same resource.
pub open spec fn same_descriptor(a: URL, b: URL) -> bool {
    a.url == b.url && a.scheme == b.scheme && a.host == b.host && a.path == b.path && a.port
        == b.port
}

/// The tokens of the status line `line`.
pub fn parse_status_line(line: &str) -> (r: Option<(String, usize, String)>)
    ensures
        match r {
            Some(tokens) => status_line_of(line@) == Some(
                StatusLine {
                    version: tokens.0@,
                    status: tokens.1 as nat,
                    explanation: tokens.2@,
                },
            ),
            None => status_line_of(line@) is None,
        },
{
    let chars = to_chars(line);
    let first = find_char(&chars, 0, ' ');
    if first >= chars.len() {
        return None;
    }
    let second = find_char(&chars, first + 1, ' ');
    if second >= chars.len() {
        return None;
    }
    let third = find_char(&chars, second + 1, ' ');
    match parse_number(&chars, first + 1, second, usize::MAX as u64) {
        Some(status) => {
            let end = if third - second >= 3 && chars[third - 2] == '\r' && chars[third - 1]
                == '\n' {
                third - 2
            } else {
                third
            };
            proof {
                let token = chars@.subrange(second + 1, third as int);
                assert(without_line_end(token) == chars@.subrange(second + 1, end as int));
            }
            Some(
                (
                    to_string(&chars, 0, first),
                    status as usize,
                    to_string(&chars, second + 1, end),
                ),
            )
        },
        None => None,
    }
}

/// The key and the value of the header `line`.
pub fn parse_header_line(line: &str) -> (r: Option<(String, String)>)
    ensures
        match r {
            Some(header) => header_of(line@) == Some((header.0@, header.1@)),
            None => header_of(line@) is None,
        },
{
    let chars = to_chars(line);
    let colon = find_char(&chars, 0, ':');
    if colon >= chars.len() {
        return None;
    }
    let key = to_string(&chars, 0, colon);
    let rest = slice_chars(&chars, colon + 1, chars.len());
    let (from, to) = trim_bounds(&rest);
    let value = to_string(&rest, from, to);
    Some((key.as_str().to_lowercase(), value.as_str().to_lowercase()))
}

impl URL {
    /// The failure of an exchange of the given kind.
    fn failure(kind: ErrorKind) -> (e: URLError)
        requires
            kind == ErrorKind::MalformedStatusLine || kind == ErrorKind::MalformedHeader || kind
                == ErrorKind::UnsupportedEncoding || kind == ErrorKind::IOFailure,
        ensures
            e.kind == kind,
            e.message@ == failure_message(kind),
    {
        match kind {
            ErrorKind::MalformedStatusLine => Self::err(kind, "Error reading status line"),
            ErrorKind::MalformedHeader => Self::err(kind, "Error reading header"),
            ErrorKind::UnsupportedEncoding => Self::err(kind, "Unsupported encoded content"),
            _ => Self::err(kind, "Error reading response"),
        }
    }

    /// Reads the status line into the record.
    pub fn read_version_status_explanation(&mut self, stream: &mut ResponseStream) -> (r: Result<
        (),
        URLError,
    >)
        ensures
            same_descriptor(*final(self), *old(self)),
            final(stream).content() == old(stream).content(),
            final(stream).position() == line_end(old(stream).content(), old(stream).position()),
            0 <= old(stream).position() <= final(stream).position() <= old(stream).content().len(),
            match text_of(
                old(stream).content().subrange(old(stream).position(), final(stream).position()),
            ) {
                Some(first) => match status_line_of(first) {
                    Some(line) => r is Ok && final(self).response@ == with_status(
                        old(self).response@,
                        line,
                    ),
                    None => final(self).response@ == old(self).response@ && (r matches Err(e)
                        && e.kind == ErrorKind::MalformedStatusLine),
                },
                None => final(self).response@ == old(self).response@ && (r matches Err(e) && e.kind
                    == ErrorKind::IOFailure),
            },
            r matches Err(e) ==> e.message@ == failure_message(e.kind),
    {
        match stream.read_line() {
            Some(line) => match parse_status_line(line.as_str()) {
                Some(tokens) => {
                    self.response.version = tokens.0;
                    self.response.status = tokens.1;
                    self.response.explanation = tokens.2;
                    Ok(())
                },
                None => Err(Self::failure(ErrorKind::MalformedStatusLine)),
            },
            None => Err(Self::failure(ErrorKind::IOFailure)),
        }
    }

    /// Reads header lines into the record, up to the blank line.
    pub fn read_headers(&mut self, stream: &mut ResponseStream) -> (r: Result<(), URLError>)
        ensures
            same_descriptor(*final(self), *old(self)),
            final(stream).content() == old(stream).content(),
            0 <= old(stream).position() <= final(stream).position() <= old(stream).content().len(),
            final(stream).position() == headers_at(
                old(stream).content(),
                old(stream).position(),
                old(self).response@.headers,
            ).2,
            final(self).response@ == with_headers(
                old(self).response@,
                headers_at(
                    old(stream).content(),
                    old(stream).position(),
                    old(self).response@.headers,
                ).1,
            ),
            match r {
                Ok(_) => headers_at(
                    old(stream).content(),
                    old(stream).position(),
                    old(self).response@.headers,
                ).0 is None,
                Err(e) => headers_at(
                    old(stream).content(),
                    old(stream).position(),
                    old(self).response@.headers,
                ).0 == Some(e.kind) && e.message@ == failure_message(e.kind),
            },
    {
        let ghost s = stream.content();
        let ghost start = stream.position();
        let ghost had = self.response@.headers;
        let _ = stream.consumed();
        loop
            invariant
                same_descriptor(*self, *old(self)),
                stream.content() == s,
                s == old(stream).content(),
                start == old(stream).position(),
                had == old(self).response@.headers,
                0 <= start <= stream.position() <= s.len(),
                headers_at(s, start, had) == headers_at(
                    s,
                    stream.position(),
                    self.response@.headers,
                ),
                self.response@ == with_headers(old(self).response@, self.response@.headers),
            decreases s.len() - stream.position(),
        {
            let ghost at = stream.position();
            let line = match stream.read_line() {
                Some(line) => line,
                None => {
                    return Err(Self::failure(ErrorKind::IOFailure));
                },
            };
            if line == "\r\n".to_owned() {
                return Ok(());
            }
            match parse_header_line(line.as_str()) {
                Some(header) => {
                    proof {
                        lemma_first_match(s, at, exactly(10u8));
                        if stream.position() == at {
                            lemma_no_bytes_no_text(s.subrange(at, at));
                        }
                    }
                    self.response.headers.insert(header.0, header.1);
                },
                None => {
                    return Err(Self::failure(ErrorKind::MalformedHeader));
                },
            }
        }
    }

    /// Reads what is left of the stream behind the body of the record; the
    /// body stays as it was where what is left is no text.
    pub fn read_body(&mut self, stream: &mut ResponseStream) -> (r: Result<(), URLError>)
        ensures
            same_descriptor(*final(self), *old(self)),
            final(stream).content() == old(stream).content(),
            final(stream).position() == old(stream).content().len(),
            match text_of(
                old(stream).content().subrange(
                    old(stream).position(),
                    old(stream).content().len() as int,
                ),
            ) {
                Some(body) => r is Ok && final(self).response@ == with_body(
                    old(self).response@,
                    body,
                ),
                None => final(self).response@ == old(self).response@ && (r matches Err(e) && e.kind
                    == ErrorKind::IOFailure && e.message@ == failure_message(e.kind)),
            },
    {
        match stream.read_to_end() {
            Some(rest) => {
                self.response.body.append(rest.as_str());
                Ok(())
            },
            None => Err(Self::failure(ErrorKind::IOFailure)),
        }
    }

    /// Whether the headers of the record declare an encoding of the body.
    pub fn is_response_encoded(&self) -> (b: bool)
        ensures
            b == is_encoded(self.response@.headers),
    {
        self.response.headers.contains_key("transfer-encoding")
            || self.response.headers.contains_key("content-encoding")
    }

    /// Reads one response off `stream` into the record and returns its body.
    /// The body is read only once the status line and the headers have been
    /// read and no encoding is declared.
    pub fn request(&mut self, stream: &mut ResponseStream) -> (r: Result<String, URLError>)
        ensures
            same_descriptor(*final(self), *old(self)),
            final(stream).content() == old(stream).content(),
            final(stream).position() == exchange(
                old(self).response@,
                old(stream).content(),
                old(stream).position(),
            ).2,
            final(self).response@ == exchange(
                old(self).response@,
                old(stream).content(),
                old(stream).position(),
            ).1,
            match r {
                Ok(body) => exchange(
                    old(self).response@,
                    old(stream).content(),
                    old(stream).position(),
                ).0 is None && body@ == final(self).response@.body,
                Err(e) => exchange(
                    old(self).response@,
                    old(stream).content(),
                    old(stream).position(),
                ).0 == Some(e.kind) && e.message@ == failure_message(e.kind),
            },
    {
        match self.read_version_status_explanation(stream) {
            Err(e) => {
                return Err(e);
            },
            Ok(_) => {},
        }
        match self.read_headers(stream) {
            Err(e) => {
                return Err(e);
            },
            Ok(_) => {},
        }
        if self.is_response_encoded() {
            return Err(Self::failure(ErrorKind::UnsupportedEncoding));
        }
        match self.read_body(stream) {
            Err(e) => {
                return Err(e);
            },
            Ok(_) => {},
        }
        Ok(self.response.body.clone())
    }
}

} // verus!
