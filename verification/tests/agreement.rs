use std::path::{Component, Path};

use rust_http_server::path::{
    components_of, extension_of, file_name_of, is_same_path, path_starts_with,
};
use rust_http_server::request::{ParseError, Request};

fn chars(s: &str) -> Vec<char> {
    s.chars().collect()
}

fn text(v: &Vec<char>) -> String {
    v.iter().collect()
}

/// Every text over `alphabet` of at most `max` characters.
fn texts(alphabet: &[char], max: usize) -> Vec<String> {
    let mut all = vec![String::new()];
    let mut last = vec![String::new()];
    for _ in 0..max {
        let mut next = Vec::new();
        for t in &last {
            for c in alphabet {
                let mut longer = t.clone();
                longer.push(*c);
                next.push(longer);
            }
        }
        all.extend(next.iter().cloned());
        last = next;
    }
    all
}

fn parse_with_std(text: &str) -> Result<(String, String, Vec<(String, String)>), ParseError> {
    let lines: Vec<&str> = text.lines().collect();
    if lines.is_empty() {
        return Err(ParseError::EmptyRequest);
    }
    let first: Vec<&str> = lines[0].split_whitespace().collect();
    if first.len() < 2 {
        return Err(ParseError::MalformedRequestLine);
    }
    let mut headers = Vec::new();
    for line in &lines[1..] {
        if line.is_empty() {
            break;
        }
        let parts: Vec<&str> = line.splitn(2, ": ").collect();
        if parts.len() == 2 {
            headers.push((parts[0].to_string(), parts[1].to_string()));
        }
    }
    Ok((first[0].to_string(), first[1].to_string(), headers))
}

fn parse_with_library(text: &str) -> Result<(String, String, Vec<(String, String)>), ParseError> {
    Request::from_text(text).map(|r| (r.method, r.resource.path, r.headers))
}

#[test]
fn parsing_agrees_with_the_standard_library_on_short_texts() {
    for t in texts(&['G', ' ', '\r', '\n', ':', '/'], 6) {
        assert_eq!(parse_with_library(&t), parse_with_std(&t), "{:?}", t);
    }
}

#[test]
fn parsing_agrees_with_the_standard_library_after_a_request_line() {
    for t in texts(&['k', ' ', '\r', '\n', ':'], 6) {
        let whole = format!("GET /\n{}", t);
        assert_eq!(parse_with_library(&whole), parse_with_std(&whole), "{:?}", whole);
        let whole = format!("GET / HTTP/1.1\r\nA: b\r\n{}", t);
        assert_eq!(parse_with_library(&whole), parse_with_std(&whole), "{:?}", whole);
    }
}

#[test]
fn parsing_agrees_with_the_standard_library_on_odd_whitespace() {
    for t in texts(&['x', '\t', '\u{b}', '\u{c}', '\u{85}', '\u{a0}', '\u{2028}', '\u{200b}', '\n'], 4) {
        assert_eq!(parse_with_library(&t), parse_with_std(&t), "{:?}", t);
    }
}

#[test]
fn buffers_agree_with_the_standard_library() {
    let mut x: u32 = 2463534242;
    let bytes = [b'G', b' ', b'/', b'\r', b'\n', b':', 0x00, 0x80, 0xc3, 0xa9, 0xe2, 0x82, 0xac, 0xf0, 0xff];
    for _ in 0..20000 {
        let mut buffer = Vec::new();
        x ^= x << 13;
        x ^= x >> 17;
        x ^= x << 5;
        let len = (x % 12) as usize;
        for _ in 0..len {
            x ^= x << 13;
            x ^= x >> 17;
            x ^= x << 5;
            buffer.push(bytes[(x % bytes.len() as u32) as usize]);
        }
        let expected = parse_with_std(&String::from_utf8_lossy(&buffer));
        let got = Request::from_buffer(&buffer).map(|r| (r.method, r.resource.path, r.headers));
        assert_eq!(got, expected, "{:?}", buffer);
    }
}

fn names_with_std(path: &str) -> Vec<String> {
    Path::new(path)
        .components()
        .filter_map(|c| match c {
            Component::Normal(name) => name.to_str().map(|n| n.to_string()),
            Component::ParentDir => Some("..".to_string()),
            _ => None,
        })
        .collect()
}

#[test]
fn components_agree_with_the_standard_library() {
    for p in texts(&['/', '.', 'a'], 8) {
        let got: Vec<String> = components_of(&chars(&p)).iter().map(text).collect();
        assert_eq!(got, names_with_std(&p), "{:?}", p);
    }
}

#[test]
fn containment_agrees_with_the_standard_library_on_absolute_paths() {
    let paths: Vec<String> = texts(&['/', '.', 'a', 'b'], 5).into_iter().map(|p| format!("/{}", p)).collect();
    let bases = ["/", "/a", "/a/", "/a/b", "/b/a", "/ab", "/a/..", "/a//b/.", "/..", "/a/a"];
    for p in &paths {
        for base in bases {
            assert_eq!(
                path_starts_with(&chars(p), &chars(base)),
                Path::new(p).starts_with(base),
                "{:?} {:?}",
                p,
                base
            );
            assert_eq!(is_same_path(&chars(p), &chars(base)), Path::new(p) == Path::new(base), "{:?} {:?}", p, base);
        }
    }
}

#[test]
fn file_names_and_extensions_agree_with_the_standard_library() {
    for p in texts(&['/', '.', 'a', 'b'], 6) {
        let name = text(&file_name_of(&chars(&p)));
        let expected = Path::new(&p).file_name().and_then(|n| n.to_str()).unwrap_or("");
        assert_eq!(name, expected, "{:?}", p);
        let extension = text(&extension_of(&chars(&name)));
        let expected = Path::new(&p).extension().and_then(|e| e.to_str()).unwrap_or("");
        assert_eq!(extension, expected, "{:?}", p);
    }
}
