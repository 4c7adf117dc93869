//! Content types by file extension, and whether a browser shows a type itself.

use crate::text::{chars_of, same_text};
use vstd::prelude::*;
use vstd::string::*;

verus! {

/// The lower-case form of an ASCII capital; any other character as it is.
pub open spec fn ascii_lower(c: char) -> char {
    if 'A' <= c && c <= 'Z' {
        ((c as u8) + 32u8) as char
    } else {
        c
    }
}

/// `c` in lower case, if it is an ASCII capital.
pub fn to_ascii_lower(c: char) -> (r: char)
    ensures
        r == ascii_lower(c),
{
    if 'A' <= c && c <= 'Z' {
        ((c as u8) + 32u8) as char
    } else {
        c
    }
}

/// `s` with its ASCII capitals in lower case.
pub open spec fn lowered(s: Seq<char>) -> Seq<char> {
    s.map_values(|c: char| ascii_lower(c))
}

/// `s` with its ASCII capitals in lower case.
pub fn lower_case(s: &str) -> (out: String)
    ensures
        out@ == lowered(s@),
{
    let chars = chars_of(s);
    let mut out = String::new();
    let mut i: usize = 0;
    while i < chars.len()
        invariant
            i <= chars.len(),
            out@ == lowered(chars@.take(i as int)),
        decreases chars.len() - i,
    {
        out.push(to_ascii_lower(chars[i]));
        i = i + 1;
    }
    out
}

/// The content type that goes with a file extension, whatever its case.
pub open spec fn mime_type(extension: Seq<char>) -> Seq<char> {
    let e = lowered(extension);
    if e == "txt"@ {
        "text/plain"@
    } else if e == "html"@ || e == "htm"@ {
        "text/html"@
    } else if e == "css"@ {
        "text/css"@
    } else if e == "js"@ {
        "application/javascript"@
    } else if e == "json"@ {
        "application/json"@
    } else if e == "png"@ {
        "image/png"@
    } else if e == "jpg"@ || e == "jpeg"@ {
        "image/jpeg"@
    } else if e == "gif"@ {
        "image/gif"@
    } else if e == "svg"@ {
        "image/svg+xml"@
    } else if e == "pdf"@ {
        "application/pdf"@
    } else if e == "mp3"@ {
        "audio/mpeg"@
    } else if e == "mp4"@ {
        "video/mp4"@
    } else {
        "application/octet-stream"@
    }
}

/// The content type for a file extension.
pub fn get_mime_type(extension: &str) -> (mime: &'static str)
    ensures
        mime@ == mime_type(extension@),
{
    let lower = lower_case(extension);
    let e = lower.as_str();
    if same_text(e, "txt") {
        "text/plain"
    } else if same_text(e, "html") || same_text(e, "htm") {
        "text/html"
    } else if same_text(e, "css") {
        "text/css"
    } else if same_text(e, "js") {
        "application/javascript"
    } else if same_text(e, "json") {
        "application/json"
    } else if same_text(e, "png") {
        "image/png"
    } else if same_text(e, "jpg") || same_text(e, "jpeg") {
        "image/jpeg"
    } else if same_text(e, "gif") {
        "image/gif"
    } else if same_text(e, "svg") {
        "image/svg+xml"
    } else if same_text(e, "pdf") {
        "application/pdf"
    } else if same_text(e, "mp3") {
        "audio/mpeg"
    } else if same_text(e, "mp4") {
        "video/mp4"
    } else {
        "application/octet-stream"
    }
}

/// Whether a browser shows content of this type itself: text, images, sound
/// and video, and of the application types PDF, JSON and XML.
pub open spec fn displays_inline(mime: Seq<char>) -> bool {
    ||| "text/"@.is_prefix_of(mime)
    ||| "image/"@.is_prefix_of(mime)
    ||| "audio/"@.is_prefix_of(mime)
    ||| "video/"@.is_prefix_of(mime)
    ||| mime == "application/pdf"@
    ||| mime == "application/json"@
    ||| mime == "application/xml"@
}

/// Whether a browser shows content of this type itself.
pub fn should_display_in_browser(mime_type: &str) -> (r: bool)
    ensures
        r == displays_inline(mime_type@),
{
    let m = chars_of(mime_type);
    has_text_prefix(&m, "text/") || has_text_prefix(&m, "image/") || has_text_prefix(&m, "audio/")
        || has_text_prefix(&m, "video/") || same_text(mime_type, "application/pdf") || same_text(
        mime_type,
        "application/json",
    ) || same_text(mime_type, "application/xml")
}

/// Whether `s` begins with `prefix`.
pub fn has_text_prefix(s: &Vec<char>, prefix: &str) -> (r: bool)
    ensures
        r == prefix@.is_prefix_of(s@),
{
    let p = chars_of(prefix);
    if p.len() > s.len() {
        return false;
    }
    let mut i: usize = 0;
    while i < p.len()
        invariant
            i <= p.len() <= s.len(),
            p@ == prefix@,
            forall|j: int| 0 <= j < i ==> p@[j] == s@[j],
        decreases p.len() - i,
    {
        if p[i] != s[i] {
            return false;
        }
        i = i + 1;
    }
    true
}

/// The value of `Content-Disposition` for a file: `inline` where the browser
/// shows the type, else an attachment under the file's name, quoted as it is.
pub open spec fn disposition(mime: Seq<char>, file_name: Seq<char>) -> Seq<char> {
    if displays_inline(mime) {
        "inline"@
    } else {
        "attachment; filename=\""@ + file_name + "\""@
    }
}

/// The value of `Content-Disposition` for a file of this type and name.
pub fn content_disposition(mime_type: &str, file_name: &str) -> (value: String)
    ensures
        value@ == disposition(mime_type@, file_name@),
{
    if should_display_in_browser(mime_type) {
        "inline".to_owned()
    } else {
        let mut value = "attachment; filename=\"".to_owned();
        value.append(file_name);
        value.append("\"");
        value
    }
}

} // verus!
