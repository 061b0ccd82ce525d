//! The response record of one exchange, and the in-memory byte stream that
//! a response is read from.

use vstd::prelude::*;
use vstd::utf8::{decode_utf8, valid_utf8};
use crate::scan::{exactly, first_match, lemma_first_match_is};
use crate::textmap::TextMap;

verus! {

/// The mathematical value of a response record.
pub struct ResponseView {
    pub version: Seq<char>,
    pub status: nat,
    pub explanation: Seq<char>,
    pub headers: Map<Seq<char>, Seq<char>>,
    pub body: Seq<char>,
}

impl ResponseView {
    /// The value of a record that nothing was read into.
    pub open spec fn empty() -> ResponseView {
        ResponseView {
            version: Seq::empty(),
            status: 0,
            explanation: Seq::empty(),
            headers: Map::empty(),
            body: Seq::empty(),
        }
    }
}

/// The record of one response: protocol version, status code, explanation,
/// headers with lower-cased keys and values, and the body.
#[derive(Debug)]
pub struct URLResponse {
    pub version: String,
    pub status: usize,
    pub explanation: String,
    pub headers: TextMap,
    pub body: String,
}

impl View for URLResponse {
    type V = ResponseView;

    open spec fn view(&self) -> ResponseView {
        ResponseView {
            version: self.version@,
            status: self.status as nat,
            explanation: self.explanation@,
            headers: self.headers@,
            body: self.body@,
        }
    }
}

impl URLResponse {
    /// A record that nothing was read into.
    pub fn empty() -> (r: Self)
        ensures
            r@ == ResponseView::empty(),
    {
        URLResponse {
            version: String::new(),
            status: 0,
            explanation: String::new(),
            headers: TextMap::new(),
            body: String::new(),
        }
    }
}

/// The position behind the line that starts at `pos`: behind the first line
/// feed at or after `pos`, or the end of `s` where there is none.
pub open spec fn line_end(s: Seq<u8>, pos: int) -> int {
    let at = first_match(s, pos, exactly(10u8));
    if at < s.len() {
        at + 1
    } else {
        at
    }
}

/// The text that `bytes` encode in UTF-8, if they encode any.
pub open spec fn text_of(bytes: Seq<u8>) -> Option<Seq<char>> {
    if valid_utf8(bytes) {
        Some(decode_utf8(bytes))
    } else {
        None
    }
}

/// Decodes `bytes` with `String::from_utf8`, which yields the text that they
/// encode exactly where they are valid UTF-8; an error of it becomes `None`.
#[verifier::external_body]
pub(crate) fn decode(bytes: Vec<u8>) -> (r: Option<String>)
    ensures
        match r {
            Some(text) => text_of(bytes@) == Some(text@),
            None => text_of(bytes@) is None,
        },
{
    String::from_utf8(bytes).ok()
}

/// The bytes of a response as they come off the transport, and how far they
/// have been read.
pub struct ResponseStream {
    data: Vec<u8>,
    pos: usize,
}

impl ResponseStream {
    #[verifier::type_invariant]
    spec fn position_in_range(self) -> bool {
        self.pos <= self.data@.len()
    }

    /// Everything that the transport delivers.
    pub closed spec fn content(&self) -> Seq<u8> {
        self.data@
    }

    /// How much of the content has been read.
    pub closed spec fn position(&self) -> int {
        self.pos as int
    }

    /// An unread stream that delivers `bytes`.
    pub fn new(bytes: Vec<u8>) -> (stream: Self)
        ensures
            stream.content() == bytes@,
            stream.position() == 0,
    {
        ResponseStream { data: bytes, pos: 0 }
    }

    /// How many bytes have been read.
    pub fn consumed(&self) -> (n: usize)
        ensures
            n == self.position(),
            n <= self.content().len(),
    {
        proof {
            use_type_invariant(self);
        }
        self.pos
    }

    /// Reads the bytes up to position `to` and decodes them.
    fn take(&mut self, to: usize) -> (text: Option<String>)
        requires
            old(self).position() <= to <= old(self).content().len(),
        ensures
            final(self).content() == old(self).content(),
            final(self).position() == to,
            match text {
                Some(text) => text_of(old(self).content().subrange(old(self).position(), to as int))
                    == Some(text@),
                None => text_of(old(self).content().subrange(old(self).position(), to as int))
                    is None,
            },
    {
        let mut bytes: Vec<u8> = Vec::new();
        let start = self.pos;
        let mut i: usize = start;
        while i < to
            invariant
                start <= i <= to <= self.data@.len(),
                bytes@ == self.data@.subrange(start as int, i as int),
            decreases to - i,
        {
            bytes.push(self.data[i]);
            i = i + 1;
            assert(self.data@.subrange(start as int, i as int) == self.data@.subrange(
                start as int,
                i - 1,
            ).push(self.data@[i - 1]));
        }
        self.pos = to;
        decode(bytes)
    }

    /// Reads one line, through its line feed, or what is left where no line
    /// feed follows, and decodes it. The bytes count as read also where they
    /// are no text.
    pub fn read_line(&mut self) -> (line: Option<String>)
        ensures
            final(self).content() == old(self).content(),
            0 <= old(self).position() <= final(self).position() <= old(self).content().len(),
            final(self).position() == line_end(old(self).content(), old(self).position()),
            match line {
                Some(line) => text_of(
                    old(self).content().subrange(old(self).position(), final(self).position()),
                ) == Some(line@),
                None => text_of(
                    old(self).content().subrange(old(self).position(), final(self).position()),
                ) is None,
            },
    {
        proof {
            use_type_invariant(&*self);
        }
        let start = self.pos;
        let mut end: usize = start;
        while end < self.data.len() && self.data[end] != 10
            invariant
                start <= end <= self.data@.len(),
                forall|i: int| start <= i < end ==> !exactly(10u8)(#[trigger] self.data@[i]),
            decreases self.data@.len() - end,
        {
            end = end + 1;
        }
        proof {
            lemma_first_match_is(self.data@, start as int, exactly(10u8), end as int);
        }
        if end < self.data.len() {
            end = end + 1;
        }
        self.take(end)
    }

    /// Reads what is left of the stream and decodes it.
    pub fn read_to_end(&mut self) -> (rest: Option<String>)
        ensures
            final(self).content() == old(self).content(),
            0 <= old(self).position() <= old(self).content().len(),
            final(self).position() == old(self).content().len(),
            match rest {
                Some(rest) => text_of(
                    old(self).content().subrange(
                        old(self).position(),
                        old(self).content().len() as int,
                    ),
                ) == Some(rest@),
                None => text_of(
                    old(self).content().subrange(
                        old(self).position(),
                        old(self).content().len() as int,
                    ),
                ) is None,
            },
    {
        proof {
            use_type_invariant(&*self);
        }
        let end = self.data.len();
        self.take(end)
    }
}

} // verus!
