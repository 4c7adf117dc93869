//! Requests: the request line and the headers, read from the first bytes that
//! a client sent.

use crate::response::header_views;
use crate::text::{
    chars_of, find_char, index_of, is_white_space, lemma_index_of_bounds, lemma_pair_absent,
    lemma_pair_found, pair_at, pair_index, rows, slice_of, text_of, white_space,
};
use vstd::prelude::*;
use vstd::string::*;
use vstd::utf8::{decode_utf8, valid_utf8};

verus! {

/// A request: the method and the path of its first line, as they were sent,
/// and its headers in the order in which they came.
#[derive(Debug)]
pub struct Request {
    pub method: String,
    pub resource: Resource,
    pub headers: Vec<(String, String)>,
}

/// What a request asks for. The path is kept percent-encoded.
#[derive(Debug)]
pub struct Resource {
    pub path: String,
}

/// What a request holds, as plain values.
pub struct RequestView {
    pub method: Seq<char>,
    pub path: Seq<char>,
    pub headers: Seq<(Seq<char>, Seq<char>)>,
}

impl View for Request {
    type V = RequestView;

    open spec fn view(&self) -> RequestView {
        RequestView {
            method: self.method@,
            path: self.resource.path@,
            headers: header_views(self.headers@),
        }
    }
}

/// Why a buffer holds no request.
#[derive(Clone, Copy, Debug, PartialEq, Eq, Structural)]
pub enum ParseError {
    /// The text has no line at all.
    EmptyRequest,
    /// The first line has fewer than two words.
    MalformedRequestLine,
}

impl ParseError {
    /// What went wrong, in words.
    pub fn message(&self) -> (text: String)
        ensures
            text@ == (match self {
                ParseError::EmptyRequest => "Empty request"@,
                ParseError::MalformedRequestLine => "Invalid request line"@,
            }),
    {
        match self {
            ParseError::EmptyRequest => "Empty request".to_owned(),
            ParseError::MalformedRequestLine => "Invalid request line".to_owned(),
        }
    }
}

/// `line` without a carriage return at its end.
pub open spec fn strip_cr(line: Seq<char>) -> Seq<char> {
    if line.len() > 0 && line.last() == '\r' {
        line.drop_last()
    } else {
        line
    }
}

/// The lines of `text`. A line ends at a line feed, and a carriage return just
/// before that line feed is not part of it. What follows the last line feed is
/// a line as it stands, unless it is empty.
pub open spec fn lines(text: Seq<char>) -> Seq<Seq<char>>
    decreases text.len(),
{
    if text.len() == 0 {
        Seq::empty()
    } else {
        let i = index_of(text, '\n') as int;
        if i < text.len() {
            seq![strip_cr(text.take(i))] + lines(text.skip(i + 1))
        } else {
            seq![text]
        }
    }
}

/// How many characters at the start of `s` are not whitespace.
pub open spec fn word_len(s: Seq<char>) -> nat
    decreases s.len(),
{
    if s.len() == 0 || white_space(s[0]) {
        0
    } else {
        1 + word_len(s.drop_first())
    }
}

/// The words of `s`: the longest runs of characters that are not whitespace.
pub open spec fn tokens(s: Seq<char>) -> Seq<Seq<char>>
    decreases s.len(),
{
    if s.len() == 0 {
        Seq::empty()
    } else if white_space(s[0]) {
        tokens(s.drop_first())
    } else {
        let n = word_len(s) as int;
        if n < s.len() {
            seq![s.take(n)] + tokens(s.skip(n))
        } else {
            seq![s]
        }
    }
}

/// Name and value of a header line: what stands before and after its first
/// `": "`, untouched. A line without `": "` is no header.
pub open spec fn header_of(line: Seq<char>) -> Option<(Seq<char>, Seq<char>)> {
    let i = pair_index(line, ':', ' ') as int;
    if i + 2 <= line.len() {
        Some((line.take(i), line.skip(i + 2)))
    } else {
        None
    }
}

/// The headers among `ls`, up to the first empty line. Lines that are no
/// header are passed over.
pub open spec fn headers_of(ls: Seq<Seq<char>>) -> Seq<(Seq<char>, Seq<char>)>
    decreases ls.len(),
{
    if ls.len() == 0 || ls[0].len() == 0 {
        Seq::empty()
    } else {
        match header_of(ls[0]) {
            Some(h) => seq![h] + headers_of(ls.drop_first()),
            None => headers_of(ls.drop_first()),
        }
    }
}

/// The request that `text` holds: the first two words of its first line are
/// the method and the path, and the lines after it give the headers.
pub open spec fn parse(text: Seq<char>) -> Result<RequestView, ParseError> {
    let ls = lines(text);
    if ls.len() == 0 {
        Err(ParseError::EmptyRequest)
    } else {
        let ts = tokens(ls[0]);
        if ts.len() < 2 {
            Err(ParseError::MalformedRequestLine)
        } else {
            Ok(RequestView { method: ts[0], path: ts[1], headers: headers_of(ls.drop_first()) })
        }
    }
}

/// The outcome of parsing, as plain values.
pub open spec fn outcome_view(r: Result<Request, ParseError>) -> Result<RequestView, ParseError> {
    match r {
        Ok(request) => Ok(request@),
        Err(e) => Err(e),
    }
}

/// Text made of nothing but whitespace.
pub open spec fn blank(text: Seq<char>) -> bool {
    forall|i: int| 0 <= i < text.len() ==> white_space(#[trigger] text[i])
}

/// Blank text has no words.
pub proof fn lemma_blank_has_no_tokens(s: Seq<char>)
    requires
        blank(s),
    ensures
        tokens(s).len() == 0,
    decreases s.len(),
{
    if s.len() > 0 {
        assert(blank(s.drop_first()));
        lemma_blank_has_no_tokens(s.drop_first());
    }
}

/// Blank text holds no request: it has no line, or a first line without words.
pub proof fn lemma_blank_is_rejected(text: Seq<char>)
    requires
        blank(text),
    ensures
        parse(text) is Err,
        text.len() == 0 ==> parse(text) == Err::<RequestView, ParseError>(ParseError::EmptyRequest),
        text.len() > 0 ==> parse(text) == Err::<RequestView, ParseError>(
            ParseError::MalformedRequestLine,
        ),
{
    if text.len() > 0 {
        lemma_index_of_bounds(text, '\n');
        let first = lines(text)[0];
        assert(blank(first));
        lemma_blank_has_no_tokens(first);
    }
}

/// A run of characters that are not whitespace, ended by whitespace or by
/// the end of the text, is a word.
pub proof fn lemma_word_len(s: Seq<char>, n: int)
    requires
        0 <= n <= s.len(),
        forall|j: int| 0 <= j < n ==> !white_space(s[j]),
        n < s.len() ==> white_space(s[n]),
    ensures
        word_len(s) == n,
    decreases s.len(),
{
    if n > 0 {
        lemma_word_len(s.drop_first(), n - 1);
    }
}

/// The lines of `chars`.
pub fn split_lines(chars: &Vec<char>) -> (out: Vec<Vec<char>>)
    ensures
        rows(out@) == lines(chars@),
{
    let mut out: Vec<Vec<char>> = Vec::new();
    let mut pos: usize = 0;
    assert(chars@.skip(0) =~= chars@);
    while pos < chars.len()
        invariant
            pos <= chars.len(),
            rows(out@) + lines(chars@.skip(pos as int)) == lines(chars@),
        decreases chars.len() - pos,
    {
        let i = find_char(chars, pos, '\n');
        let ghost rest = chars@.skip(pos as int);
        if i < chars.len() {
            let end = if i > pos && chars[i - 1] == '\r' {
                i - 1
            } else {
                i
            };
            let line = slice_of(chars, pos, end);
            assert(line@ =~= strip_cr(rest.take(i - pos)));
            assert(rest.skip(i - pos + 1) =~= chars@.skip(i + 1));
            out.push(line);
            pos = i + 1;
        } else {
            out.push(slice_of(chars, pos, i));
            pos = i;
        }
    }
    out
}

/// Where the first word at or after `from` begins and ends, if there is one.
pub fn next_token(line: &Vec<char>, from: usize) -> (r: Option<(usize, usize)>)
    requires
        from <= line.len(),
    ensures
        match r {
            Some((a, b)) => from <= a < b <= line.len() && tokens(line@.skip(from as int)) == seq![
                line@.subrange(a as int, b as int),
            ] + tokens(line@.skip(b as int)),
            None => tokens(line@.skip(from as int)) == Seq::<Seq<char>>::empty(),
        },
{
    let mut a: usize = from;
    while a < line.len() && is_white_space(line[a])
        invariant
            from <= a <= line.len(),
            tokens(line@.skip(from as int)) == tokens(line@.skip(a as int)),
        decreases line.len() - a,
    {
        assert(line@.skip(a as int).drop_first() =~= line@.skip(a + 1));
        a = a + 1;
    }
    if a == line.len() {
        return None;
    }
    let mut b: usize = a + 1;
    while b < line.len() && !is_white_space(line[b])
        invariant
            a < b <= line.len(),
            forall|j: int| a <= j < b ==> !white_space(line@[j]),
        decreases line.len() - b,
    {
        b = b + 1;
    }
    proof {
        let s = line@.skip(a as int);
        lemma_word_len(s, b - a);
        assert(s.take(b - a) =~= line@.subrange(a as int, b as int));
        assert(s.skip(b - a) =~= line@.skip(b as int));
    }
    Some((a, b))
}

/// Name and value of a header line, if it is one.
pub fn split_header(line: &Vec<char>) -> (r: Option<(String, String)>)
    ensures
        match r {
            Some(h) => header_of(line@) == Some((h.0@, h.1@)),
            None => header_of(line@) is None,
        },
{
    let n = line.len();
    if n < 2 {
        return None;
    }
    let mut i: usize = 0;
    while i <= n - 2 && !(line[i] == ':' && line[i + 1] == ' ')
        invariant
            n == line.len(),
            n >= 2,
            i <= n - 1,
            forall|j: int| 0 <= j < i ==> !pair_at(line@, ':', ' ', j),
        decreases n - i,
    {
        i = i + 1;
    }
    if i <= n - 2 {
        proof {
            lemma_pair_found(line@, ':', ' ', i as int);
        }
        let name = text_of(line, 0, i);
        let value = text_of(line, i + 2, n);
        Some((name, value))
    } else {
        proof {
            lemma_pair_absent(line@, ':', ' ');
        }
        None
    }
}

/// `String::from_utf8_lossy` turns bytes into text and puts U+FFFD in place of
/// what is not UTF-8. `utf8_lossy` names that text; which text it is for bytes
/// that are not UTF-8 is not said here.
pub uninterp spec fn utf8_lossy(bytes: Seq<u8>) -> Seq<char>;

/// Calls `String::from_utf8_lossy`. Taken on trust: the text it gives depends
/// on the bytes alone, and bytes that are UTF-8 already are decoded as they
/// stand.
#[verifier::external_body]
fn decode_lossy(bytes: &[u8]) -> (text: String)
    ensures
        text@ == utf8_lossy(bytes@),
        valid_utf8(bytes@) ==> text@ == decode_utf8(bytes@),
{
    String::from_utf8_lossy(bytes).into_owned()
}

impl Request {
    /// Reads a request from text.
    pub fn from_text(text: &str) -> (r: Result<Request, ParseError>)
        ensures
            outcome_view(r) == parse(text@),
            blank(text@) ==> r is Err,
    {
        proof {
            if blank(text@) {
                lemma_blank_is_rejected(text@);
            }
        }
        let chars = chars_of(text);
        let ls = split_lines(&chars);
        if ls.len() == 0 {
            return Err(ParseError::EmptyRequest);
        }
        let ghost all = rows(ls@);
        let first = &ls[0];
        assert(first@.skip(0) =~= first@);
        let (a, b) = match next_token(first, 0) {
            Some(t) => t,
            None => {
                return Err(ParseError::MalformedRequestLine);
            },
        };
        let (c, d) = match next_token(first, b) {
            Some(t) => t,
            None => {
                return Err(ParseError::MalformedRequestLine);
            },
        };
        let method = text_of(first, a, b);
        let path = text_of(first, c, d);
        let mut headers: Vec<(String, String)> = Vec::new();
        let mut i: usize = 1;
        while i < ls.len() && ls[i].len() > 0
            invariant
                1 <= i <= ls.len(),
                all == rows(ls@),
                header_views(headers@) + headers_of(all.skip(i as int)) == headers_of(
                    all.drop_first(),
                ),
            decreases ls.len() - i,
        {
            assert(all.skip(i as int).drop_first() =~= all.skip(i + 1));
            if let Some(h) = split_header(&ls[i]) {
                headers.push(h);
            }
            i = i + 1;
        }
        Ok(Request { method, resource: Resource { path }, headers })
    }

    /// Reads a request from the bytes that the client sent. Bytes that are not
    /// UTF-8 are replaced, so no buffer fails for its encoding.
    pub fn from_buffer(buffer: &[u8]) -> (r: Result<Request, ParseError>)
        ensures
            outcome_view(r) == parse(utf8_lossy(buffer@)),
            valid_utf8(buffer@) ==> outcome_view(r) == parse(decode_utf8(buffer@)),
            blank(utf8_lossy(buffer@)) ==> r is Err,
            valid_utf8(buffer@) && blank(decode_utf8(buffer@)) ==> r is Err,
    {
        let text = decode_lossy(buffer);
        Request::from_text(text.as_str())
    }
}

} // verus!
