//! HTTP responses: construction, extra headers, and the bytes sent on the wire.

use crate::encoding::{lemma_encode_concat, lemma_no_pair_in_encoding, lemma_scalar_bytes};
use crate::text::{
    append_bytes, decimal, decimal_string, decimal_value, index_of, lemma_decimal_digits,
    lemma_decimal_value, lemma_index_of, lemma_pair_found, pair_at, pair_index, push_decimal,
};
use vstd::prelude::*;
use vstd::string::*;
use vstd::utf8::{
    decode_utf8, encode_utf8, encode_utf8_decode_utf8, encode_utf8_valid_utf8, valid_utf8,
};

verus! {

/// A response: status, headers in the order in which they are sent, and body.
#[derive(Debug)]
pub struct Response {
    pub status_code: u16,
    pub status_text: String,
    pub headers: Vec<(String, String)>,
    pub body: Vec<u8>,
}

/// What a response holds, as plain values.
pub struct ResponseView {
    pub status_code: u16,
    pub status_text: Seq<char>,
    pub headers: Seq<(Seq<char>, Seq<char>)>,
    pub body: Seq<u8>,
}

/// The name and value of each header, in order.
pub open spec fn header_views(hs: Seq<(String, String)>) -> Seq<(Seq<char>, Seq<char>)> {
    hs.map_values(|h: (String, String)| (h.0@, h.1@))
}

impl View for Response {
    type V = ResponseView;

    open spec fn view(&self) -> ResponseView {
        ResponseView {
            status_code: self.status_code,
            status_text: self.status_text@,
            headers: header_views(self.headers@),
            body: self.body@,
        }
    }
}

/// The text of an optional string.
pub open spec fn text_view(s: Option<&str>) -> Option<Seq<char>> {
    match s {
        Some(t) => Some(t@),
        None => None,
    }
}

/// The two headers that every response starts with: the length of the body
/// in bytes and the server's name.
pub open spec fn standard_headers(body_len: nat) -> Seq<(Seq<char>, Seq<char>)> {
    seq![("Content-Length"@, decimal(body_len)), ("Server"@, "RustHTTPServer/0.1"@)]
}

/// The response that `Response::new` builds: the standard headers, then
/// `Content-Type` if a type was given, and nothing else.
pub open spec fn built(
    status_code: u16,
    status_text: Seq<char>,
    body: Seq<u8>,
    content_type: Option<Seq<char>>,
) -> ResponseView {
    ResponseView {
        status_code,
        status_text,
        headers: match content_type {
            Some(ct) => standard_headers(body.len()).push(("Content-Type"@, ct)),
            None => standard_headers(body.len()),
        },
        body,
    }
}

/// What the constructors establish and `add_header` keeps: the first header
/// gives the length of the body, the second names the server.
pub open spec fn well_formed(r: ResponseView) -> bool {
    &&& r.headers.len() >= 2
    &&& r.headers[0] == ("Content-Length"@, decimal(r.body.len()))
    &&& r.headers[1] == ("Server"@, "RustHTTPServer/0.1"@)
}

/// `200 OK` with the given body.
pub open spec fn ok_view(body: Seq<u8>, content_type: Option<Seq<char>>) -> ResponseView {
    built(200, "OK"@, body, content_type)
}

/// `404 Not Found`, whose body is the plain text `404 Not Found`.
pub open spec fn not_found_view() -> ResponseView {
    built(404, "Not Found"@, encode_utf8("404 Not Found"@), Some("text/plain"@))
}

/// `403 Forbidden`, whose body is the plain text `403 Forbidden`.
pub open spec fn forbidden_view() -> ResponseView {
    built(403, "Forbidden"@, encode_utf8("403 Forbidden"@), Some("text/plain"@))
}

/// `HTTP/1.1 <code> <reason>` and the line end.
pub open spec fn status_line(status_code: u16, status_text: Seq<char>) -> Seq<char> {
    "HTTP/1.1 "@ + decimal(status_code as nat) + seq![' '] + status_text + "\r\n"@
}

/// `Name: Value` and the line end.
pub open spec fn header_line(h: (Seq<char>, Seq<char>)) -> Seq<char> {
    h.0 + ": "@ + h.1 + "\r\n"@
}

/// The header lines as bytes, one after the other in the order of `hs`.
pub open spec fn header_block(hs: Seq<(Seq<char>, Seq<char>)>) -> Seq<u8>
    decreases hs.len(),
{
    if hs.len() == 0 {
        Seq::empty()
    } else {
        header_block(hs.drop_last()) + encode_utf8(header_line(hs.last()))
    }
}

/// The bytes of a response: status line, header lines, an empty line, then the
/// body as it is.
pub open spec fn wire_format(r: ResponseView) -> Seq<u8> {
    encode_utf8(status_line(r.status_code, r.status_text)) + header_block(r.headers) + encode_utf8(
        "\r\n"@,
    ) + r.body
}

/// What a status line says: the number after `HTTP/1.1 ` and, behind one
/// space, the reason phrase up to the end of the line.
pub open spec fn status_of_line(line: Seq<char>) -> Option<(nat, Seq<char>)> {
    let version = "HTTP/1.1 "@;
    let rest = line.skip(version.len() as int);
    let space = index_of(rest, ' ') as int;
    if version.is_prefix_of(line) && space < rest.len() {
        match decimal_value(rest.take(space)) {
            Some(code) => Some((code, rest.skip(space + 1))),
            None => None,
        }
    } else {
        None
    }
}

/// The status that a reader finds in `bytes`: it takes what stands before the
/// first CR LF as the status line, and reads it as UTF-8.
pub open spec fn status_of(bytes: Seq<u8>) -> Option<(nat, Seq<char>)> {
    let end = pair_index(bytes, 0x0Du8, 0x0Au8) as int;
    let line = bytes.take(end);
    if end + 2 <= bytes.len() && valid_utf8(line) {
        status_of_line(decode_utf8(line))
    } else {
        None
    }
}

/// The `Content-Length` of a well-formed response is the length of its body.
pub proof fn lemma_content_length(r: ResponseView)
    requires
        well_formed(r),
    ensures
        r.headers[0].0 == "Content-Length"@,
        decimal_value(r.headers[0].1) == Some(r.body.len()),
{
    lemma_decimal_value(r.body.len());
}

/// Reading the bytes of a response back gives its status code and its reason
/// phrase, provided the phrase holds no CR LF of its own.
pub proof fn lemma_status_reads_back(r: ResponseView)
    requires
        forall|j: int| !pair_at(r.status_text, '\r', '\n', j),
    ensures
        status_of(wire_format(r)) == Some((r.status_code as nat, r.status_text)),
{
    reveal_strlit("HTTP/1.1 ");
    reveal_strlit("\r\n");
    let version = "HTTP/1.1 "@;
    let numeral = decimal(r.status_code as nat);
    let text = r.status_text;
    let head = version + numeral + seq![' '] + text;
    let eol = "\r\n"@;
    let wire = wire_format(r);
    let hb = encode_utf8(head);
    lemma_decimal_digits(r.status_code as nat);
    lemma_decimal_value(r.status_code as nat);

    assert(encode_utf8(eol) =~= seq![0x0Du8, 0x0Au8]) by {
        reveal_with_fuel(encode_utf8, 3);
        lemma_scalar_bytes('\r');
        lemma_scalar_bytes('\n');
    }
    lemma_encode_concat(head, eol);

    assert forall|j: int| !pair_at(head, '\r', '\n', j) by {
        let offset = version.len() + numeral.len() + 1;
        if pair_at(head, '\r', '\n', j) && j >= offset {
            assert(pair_at(text, '\r', '\n', j - offset));
        }
    }
    lemma_no_pair_in_encoding(head, '\r', '\n');
    assert('\r' as u8 == 0x0Du8 && '\n' as u8 == 0x0Au8);
    assert forall|j: int| 0 <= j < hb.len() implies !pair_at(wire, 0x0Du8, 0x0Au8, j) by {
        assert(!pair_at(hb, 0x0Du8, 0x0Au8, j));
    }
    lemma_pair_found(wire, 0x0Du8, 0x0Au8, hb.len() as int);
    assert(wire.take(hb.len() as int) =~= hb);
    encode_utf8_valid_utf8(head);
    encode_utf8_decode_utf8(head);

    let rest = head.skip(version.len() as int);
    lemma_index_of(rest, ' ', numeral.len() as int);
    assert(rest.take(numeral.len() as int) =~= numeral);
}

impl Response {
    /// A response with the given status and body. `Content-Length` and
    /// `Server` are always set, `Content-Type` only where a type is given.
    pub fn new(status_code: u16, status_text: &str, body: Vec<u8>, content_type: Option<&str>) -> (r:
        Response)
        ensures
            r@ == built(status_code, status_text@, body@, text_view(content_type)),
            well_formed(r@),
    {
        let mut headers: Vec<(String, String)> = Vec::new();
        headers.push(("Content-Length".to_owned(), decimal_string(body.len())));
        headers.push(("Server".to_owned(), "RustHTTPServer/0.1".to_owned()));
        if let Some(ct) = content_type {
            headers.push(("Content-Type".to_owned(), ct.to_owned()));
        }
        let r = Response { status_code, status_text: status_text.to_owned(), headers, body };
        assert(r@.headers =~= built(
            status_code,
            status_text@,
            body@,
            text_view(content_type),
        ).headers);
        r
    }

    /// Appends one header. Nothing is replaced: a name may occur more than once.
    pub fn add_header(&mut self, name: &str, value: &str)
        ensures
            final(self)@ == (ResponseView {
                headers: old(self)@.headers.push((name@, value@)),
                ..old(self)@
            }),
            well_formed(old(self)@) ==> well_formed(final(self)@),
    {
        self.headers.push((name.to_owned(), value.to_owned()));
        assert(self@.headers =~= old(self)@.headers.push((name@, value@)));
    }

    /// `200 OK` with the given body.
    pub fn ok(body: Vec<u8>, content_type: Option<&str>) -> (r: Response)
        ensures
            r@ == ok_view(body@, text_view(content_type)),
            well_formed(r@),
    {
        Self::new(200, "OK", body, content_type)
    }

    /// `404 Not Found`.
    pub fn not_found() -> (r: Response)
        ensures
            r@ == not_found_view(),
            well_formed(r@),
    {
        let body = "404 Not Found".as_bytes_vec();
        Self::new(404, "Not Found", body, Some("text/plain"))
    }

    /// `403 Forbidden`.
    pub fn forbidden() -> (r: Response)
        ensures
            r@ == forbidden_view(),
            well_formed(r@),
    {
        let body = "403 Forbidden".as_bytes_vec();
        Self::new(403, "Forbidden", body, Some("text/plain"))
    }

    /// The bytes to send: status line, headers, an empty line, the body.
    pub fn to_bytes(&self) -> (bytes: Vec<u8>)
        ensures
            bytes@ == wire_format(self@),
    {
        let mut bytes: Vec<u8> = Vec::new();
        let mut line = "HTTP/1.1 ".to_owned();
        push_decimal(&mut line, self.status_code as usize);
        line.push(' ');
        line.append(self.status_text.as_str());
        line.append("\r\n");
        assert(line@ =~= status_line(self.status_code, self.status_text@));
        append_bytes(&mut bytes, line.as_str().as_bytes());
        let ghost head = bytes@;
        let mut i: usize = 0;
        while i < self.headers.len()
            invariant
                i <= self.headers.len(),
                bytes@ == head + header_block(header_views(self.headers@).take(i as int)),
            decreases self.headers.len() - i,
        {
            let ghost hs = header_views(self.headers@);
            let mut line = String::new();
            line.append(self.headers[i].0.as_str());
            line.append(": ");
            line.append(self.headers[i].1.as_str());
            line.append("\r\n");
            assert(hs.take(i + 1).drop_last() =~= hs.take(i as int));
            append_bytes(&mut bytes, line.as_str().as_bytes());
            i = i + 1;
        }
        assert(header_views(self.headers@).take(self.headers.len() as int) =~= header_views(
            self.headers@,
        ));
        append_bytes(&mut bytes, "\r\n".as_bytes());
        append_bytes(&mut bytes, self.body.as_slice());
        bytes
    }
}

} // verus!
