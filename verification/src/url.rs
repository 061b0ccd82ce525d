//! The URL model: a URL string split into scheme, host, port and path, the
//! transport and port that it asks for, and the request that is sent for it.

use vstd::prelude::*;
use vstd::string::StringExecFns;
use crate::number::{decimal, is_digit, lemma_decimal_reads_back, number_of, parse_number};
use crate::response::{ResponseView, URLResponse};
use crate::scan::{exactly, find_char, first_match, lemma_first_match_is};
use crate::text::{append_chars, slice_chars, to_chars, to_string};

verus! {

/// What went wrong with a URL or with an exchange.
#[derive(Clone, Copy, Debug, PartialEq, Eq, Structural)]
pub enum ErrorKind {
    /// The URL has no `://`, or its port is no number up to 65535.
    MalformedURL,
    /// The scheme is neither `http` nor `https`.
    UnsupportedScheme,
    /// The transport could not be opened.
    ConnectionFailed,
    /// The status line has fewer than three tokens or no numeric status.
    MalformedStatusLine,
    /// A header line has no colon.
    MalformedHeader,
    /// The response declares a transfer or content encoding.
    UnsupportedEncoding,
    /// Reading or writing the transport failed.
    IOFailure,
}

/// A failure, with a message for the reader.
#[derive(Debug)]
pub struct URLError {
    pub kind: ErrorKind,
    pub message: String,
}

impl URLError {
    /// The message of the failure.
    pub fn to_string(&self) -> (s: String)
        ensures
            s@ == self.message@,
    {
        self.message.clone()
    }
}

/// How the bytes of an exchange travel.
#[derive(Clone, Copy, Debug, PartialEq, Eq, Structural)]
pub enum Transport {
    /// Over the raw TCP stream.
    Plain,
    /// Over a TLS session on the TCP stream.
    Tls,
}

/// The mathematical value of a URL descriptor.
pub struct URLView {
    pub scheme: Seq<char>,
    pub host: Seq<char>,
    pub port: Option<u16>,
    pub path: Seq<char>,
}

/// A URL descriptor, and the record of the response to its request.
#[derive(Debug)]
pub struct URL {
    /// The string that the descriptor was parsed from.
    pub url: String,
    pub scheme: String,
    pub host: String,
    pub path: String,
    pub port: Option<u16>,
    pub response: URLResponse,
}

impl View for URL {
    type V = URLView;

    open spec fn view(&self) -> URLView {
        URLView { scheme: self.scheme@, host: self.host@, port: self.port, path: self.path@ }
    }
}

/// Whether `://` stands at position `i` of `s`.
pub open spec fn separator_at(s: Seq<char>, i: int) -> bool {
    0 <= i && i + 3 <= s.len() && s[i] == ':' && s[i + 1] == '/' && s[i + 2] == '/'
}

/// The first position at or after `from` at which `://` stands, or a
/// position out of `s` where there is none.
pub open spec fn first_separator(s: Seq<char>, from: int) -> int
    decreases s.len() - from,
{
    if from < 0 || from >= s.len() || separator_at(s, from) {
        from
    } else {
        first_separator(s, from + 1)
    }
}

/// A position with `://`, and none before it, is the one that
/// `first_separator` finds; where no position has it, none is found.
pub proof fn lemma_first_separator_is(s: Seq<char>, from: int, at: int)
    requires
        0 <= from <= at,
        forall|i: int| from <= i < at ==> !separator_at(s, i),
        separator_at(s, at) || at >= s.len(),
    ensures
        separator_at(s, at) ==> first_separator(s, from) == at,
        at >= s.len() ==> first_separator(s, from) >= s.len(),
    decreases at - from,
{
    if from < at && from < s.len() {
        lemma_first_separator_is(s, from + 1, at);
    }
}

/// The descriptor that the URL string `s` stands for. The scheme is what
/// precedes the first `://`; what follows splits at the first `/` into
/// authority and path, and the authority at the first `:` into host and
/// port. An empty port counts as none. There is no descriptor where `://`
/// is missing or the port is no number up to 65535.
pub open spec fn parsed(s: Seq<char>) -> Option<URLView> {
    let sep = first_separator(s, 0);
    if sep >= s.len() {
        None
    } else {
        let rest = s.subrange(sep + 3, s.len() as int);
        let slash = first_match(rest, 0, exactly('/'));
        let authority = rest.subrange(0, slash);
        let tail = if slash < rest.len() {
            rest.subrange(slash + 1, rest.len() as int)
        } else {
            Seq::empty()
        };
        let colon = first_match(authority, 0, exactly(':'));
        let host = authority.subrange(0, colon);
        let port_text = if colon < authority.len() {
            authority.subrange(colon + 1, authority.len() as int)
        } else {
            Seq::empty()
        };
        let path = seq!['/'] + tail;
        if port_text.len() == 0 {
            Some(URLView { scheme: s.subrange(0, sep), host, port: None, path })
        } else {
            match number_of(port_text, 65535) {
                Some(n) => Some(
                    URLView { scheme: s.subrange(0, sep), host, port: Some(n as u16), path },
                ),
                None => None,
            }
        }
    }
}

/// How a port stands in a URL string: a colon and the number, or nothing.
pub open spec fn port_suffix(port: Option<u16>) -> Seq<char> {
    match port {
        Some(number) => seq![':'] + decimal(number as nat),
        None => Seq::empty(),
    }
}

/// The URL string made of the four fields of `u`.
pub open spec fn composed(u: URLView) -> Seq<char> {
    u.scheme + seq![':', '/', '/'] + u.host + port_suffix(u.port) + u.path
}

/// Whether a URL string can be made of the fields of `u` without ambiguity:
/// the scheme holds no `://`, the host neither colon nor slash, and the path
/// begins with a slash.
pub open spec fn well_formed(u: URLView) -> bool {
    &&& forall|i: int| !separator_at(u.scheme, i)
    &&& forall|i: int| 0 <= i < u.host.len() ==> u.host[i] != ':' && u.host[i] != '/'
    &&& u.path.len() > 0 && u.path[0] == '/'
}

/// Parsing the URL string made of well-formed fields gives the same four
/// fields back.
pub proof fn lemma_parse_recovers_fields(u: URLView)
    requires
        well_formed(u),
    ensures
        parsed(composed(u)) == Some(u),
{
    let s = composed(u);
    let mark = seq![':', '/', '/'];
    let suffix = port_suffix(u.port);
    let sep = u.scheme.len() as int;
    assert(s[sep] == mark[0] && s[sep + 1] == mark[1] && s[sep + 2] == mark[2]);
    assert(separator_at(s, sep));
    assert forall|i: int| 0 <= i < sep implies !separator_at(s, i) by {
        assert(!separator_at(u.scheme, i));
        assert(s[i] == u.scheme[i]);
        if i + 1 < sep {
            assert(s[i + 1] == u.scheme[i + 1]);
        }
        if i + 2 < sep {
            assert(s[i + 2] == u.scheme[i + 2]);
        }
    }
    lemma_first_separator_is(s, 0, sep);
    assert(s.subrange(0, sep) == u.scheme);
    let rest = s.subrange(sep + 3, s.len() as int);
    assert(rest == u.host + suffix + u.path);
    match u.port {
        Some(number) => {
            lemma_decimal_reads_back(number as nat);
            let digits = decimal(number as nat);
            assert forall|i: int| 0 <= i < suffix.len() implies suffix[i] != '/' by {
                if i > 0 {
                    assert(suffix[i] == digits[i - 1]);
                    assert(is_digit(digits[i - 1]));
                }
            }
            assert(suffix[0] == ':');
            assert(suffix.subrange(1, suffix.len() as int) == digits);
        },
        None => {},
    }
    let slash = (u.host.len() + suffix.len()) as int;
    assert(rest[slash] == u.path[0]);
    assert forall|i: int| 0 <= i < slash implies !exactly('/')(#[trigger] rest[i]) by {
        if i < u.host.len() {
            assert(rest[i] == u.host[i]);
        } else {
            assert(rest[i] == suffix[i - u.host.len()]);
        }
    }
    lemma_first_match_is(rest, 0, exactly('/'), slash);
    let authority = rest.subrange(0, slash);
    assert(authority == u.host + suffix);
    assert(seq!['/'] + rest.subrange(slash + 1, rest.len() as int) == u.path);
    let colon = u.host.len() as int;
    assert forall|i: int| 0 <= i < colon implies !exactly(':')(#[trigger] authority[i]) by {
        assert(authority[i] == u.host[i]);
    }
    if colon < authority.len() {
        assert(authority[colon] == suffix[0]);
    }
    lemma_first_match_is(authority, 0, exactly(':'), colon);
    assert(authority.subrange(0, colon) == u.host);
    match u.port {
        Some(number) => {
            assert(authority.subrange(colon + 1, authority.len() as int) == decimal(number as nat));
        },
        None => {},
    }
}

/// The port that a connection for `u` goes to: the explicit one, else 443
/// for `https` and 80 for any other scheme.
pub open spec fn effective_port(u: URLView) -> u16 {
    match u.port {
        Some(port) => port,
        None => if u.scheme == "https"@ {
            443u16
        } else {
            80u16
        },
    }
}

/// The request that is sent for `u`: the request line, the `Host` and
/// `User-Agent` headers, and the blank line that ends them.
pub open spec fn request_of(u: URLView) -> Seq<char> {
    "GET "@ + u.path + " HTTP/1.0\r\n"@ + "Host: "@ + u.host + "\r\n"@
        + "User-Agent: Mozilla/5.0\r\n"@ + "\r\n"@
}

impl URL {
    /// Parses a URL string.
    pub fn new(url: String) -> (r: Result<Self, URLError>)
        ensures
            match r {
                Ok(u) => parsed(url@) == Some(u@) && u.url@ == url@ && u.response@
                    == ResponseView::empty(),
                Err(e) => parsed(url@) is None && e.kind == ErrorKind::MalformedURL && e.message@
                    == if first_separator(url@, 0) >= url@.len() {
                    "URL scheme missing"@
                } else {
                    "URL port invalid"@
                },
            },
            (forall|i: int| !separator_at(url@, i)) ==> r is Err,
    {
        let chars = to_chars(url.as_str());
        let mut sep: usize = 0;
        while sep < chars.len() && !(chars.len() - sep >= 3 && chars[sep] == ':' && chars[sep + 1]
            == '/' && chars[sep + 2] == '/')
            invariant
                sep <= chars.len(),
                forall|i: int| 0 <= i < sep ==> !separator_at(chars@, i),
            decreases chars.len() - sep,
        {
            sep = sep + 1;
        }
        proof {
            lemma_first_separator_is(chars@, 0, sep as int);
        }
        if sep >= chars.len() {
            return Err(Self::err(ErrorKind::MalformedURL, "URL scheme missing"));
        }
        assert(separator_at(url@, sep as int));
        let rest = slice_chars(&chars, sep + 3, chars.len());
        let slash = find_char(&rest, 0, '/');
        let authority = slice_chars(&rest, 0, slash);
        let colon = find_char(&authority, 0, ':');
        let mut path = String::new();
        path.push('/');
        assert(path@ == seq!['/']);
        if slash < rest.len() {
            append_chars(&mut path, &rest, slash + 1, rest.len());
        } else {
            assert(path@ + Seq::<char>::empty() == path@);
        }
        let port: Option<u16> = if colon < authority.len() && colon + 1 < authority.len() {
            match parse_number(&authority, colon + 1, authority.len(), 65535) {
                Some(n) => Some(n as u16),
                None => {
                    return Err(Self::err(ErrorKind::MalformedURL, "URL port invalid"));
                },
            }
        } else {
            None
        };
        Ok(
            URL {
                scheme: to_string(&chars, 0, sep),
                host: to_string(&authority, 0, colon),
                path,
                url,
                port,
                response: URLResponse::empty(),
            },
        )
    }

    /// A failure of the given kind with the given message.
    pub fn err(kind: ErrorKind, message: &str) -> (e: URLError)
        ensures
            e.kind == kind,
            e.message@ == message@,
    {
        URLError { kind, message: message.to_owned() }
    }

    /// Whether the scheme is `https`.
    pub fn is_https(&self) -> (b: bool)
        ensures
            b == (self@.scheme == "https"@),
    {
        self.scheme == "https".to_owned()
    }

    /// The port that a connection for this URL goes to.
    pub fn get_port(&self) -> (port: u16)
        ensures
            port == effective_port(self@),
    {
        match self.port {
            Some(port) => port,
            None => {
                if self.is_https() {
                    443
                } else {
                    80
                }
            },
        }
    }

    /// How the bytes of the exchange travel: over TLS for `https`, plainly
    /// for `http`; any other scheme is refused.
    pub fn transport(&self) -> (r: Result<Transport, URLError>)
        ensures
            match r {
                Ok(Transport::Tls) => self@.scheme == "https"@,
                Ok(Transport::Plain) => self@.scheme == "http"@ && self@.scheme != "https"@,
                Err(e) => self@.scheme != "https"@ && self@.scheme != "http"@ && e.kind
                    == ErrorKind::UnsupportedScheme && e.message@ == "Unsupported URL scheme"@,
            },
    {
        if self.is_https() {
            Ok(Transport::Tls)
        } else if self.scheme == "http".to_owned() {
            Ok(Transport::Plain)
        } else {
            Err(Self::err(ErrorKind::UnsupportedScheme, "Unsupported URL scheme"))
        }
    }

    /// The request that is sent for this URL.
    pub fn request_text(&self) -> (text: String)
        ensures
            text@ == request_of(self@),
    {
        let mut text = "GET ".to_owned();
        text.append(self.path.as_str());
        text.append(" HTTP/1.0\r\n");
        text.append("Host: ");
        text.append(self.host.as_str());
        text.append("\r\n");
        text.append("User-Agent: Mozilla/5.0\r\n");
        text.append("\r\n");
        text
    }
}

} // verus!
