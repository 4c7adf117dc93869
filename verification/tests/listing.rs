use rust_http_server::listing::{
    bytes_before_or_equal, entry_before_or_equal, insert_entry, list_entries, render_page, Child,
    Entry, DIR_ICON, FILE_ICON, PAGE_FOOT, PAGE_HEAD, PAGE_LIST, PAGE_STYLE,
};

fn child(path: &str, is_dir: bool) -> Child {
    Child { path: path.to_string(), is_dir }
}

fn entry(href: &str, name: &str, is_dir: bool) -> Entry {
    Entry { href: href.to_string(), name: name.to_string(), is_dir }
}

fn names(entries: &Vec<Entry>) -> Vec<&str> {
    entries.iter().map(|e| e.name.as_str()).collect()
}

fn hrefs(entries: &Vec<Entry>) -> Vec<&str> {
    entries.iter().map(|e| e.href.as_str()).collect()
}

#[test]
fn directories_come_before_files_and_names_are_alphabetical() {
    let children = vec![child("/srv/b.txt", false), child("/srv/A", true), child("/srv/a.txt", false)];
    let entries = list_entries("/srv", "/srv", &children);
    assert_eq!(names(&entries), ["A", "a.txt", "b.txt"]);
    assert_eq!(hrefs(&entries), ["A", "a.txt", "b.txt"]);
    assert!(entries[0].is_dir);
    assert!(!entries[1].is_dir);
    assert!(!entries[2].is_dir);
}

#[test]
fn listing_of_the_root_has_no_parent_link() {
    let children = vec![child("/srv/x", true), child("/srv/y.txt", false)];
    for dir in ["/srv", "/srv/", "/srv/.", "//srv"] {
        let entries = list_entries("/srv", dir, &children);
        assert_eq!(entries.len(), 2);
        assert!(entries.iter().all(|e| e.href != ".."));
    }
    assert!(list_entries("/srv", "/srv", &Vec::new()).is_empty());
}

#[test]
fn listing_below_the_root_starts_with_one_parent_link() {
    let children = vec![
        child("/srv/sub/zeta", true),
        child("/srv/sub/Alpha", true),
        child("/srv/sub/file.txt", false),
        child("/srv/sub/!bang", true),
    ];
    let entries = list_entries("/srv", "/srv/sub", &children);
    assert_eq!(hrefs(&entries), ["..", "sub/!bang", "sub/Alpha", "sub/zeta", "sub/file.txt"]);
    assert_eq!(names(&entries), ["Parent Directory", "!bang", "Alpha", "zeta", "file.txt"]);
    assert!(entries[0].is_dir);
    assert_eq!(entries.iter().filter(|e| e.href == "..").count(), 1);
}

#[test]
fn parent_link_is_first_even_when_names_sort_before_it() {
    let children = vec![child("/srv/sub/A", true), child("/srv/sub/Older", true)];
    let entries = list_entries("/srv", "/srv/sub", &children);
    assert_eq!(names(&entries), ["Parent Directory", "A", "Older"]);
    let entries = list_entries("/srv", "/srv/sub", &Vec::new());
    assert_eq!(hrefs(&entries), [".."]);
}

#[test]
fn names_are_ordered_by_their_bytes() {
    let children = vec![
        child("/srv/b", false),
        child("/srv/a", false),
        child("/srv/B", false),
        child("/srv/ab", false),
        child("/srv/\u{e9}", false),
        child("/srv/10", false),
        child("/srv/9", false),
        child("/srv/_", false),
    ];
    let entries = list_entries("/srv", "/srv", &children);
    assert_eq!(names(&entries), ["10", "9", "B", "_", "a", "ab", "b", "\u{e9}"]);
}

#[test]
fn sorting_agrees_with_a_stable_sort() {
    let mut children = Vec::new();
    let mut x: u32 = 12345;
    for i in 0..60 {
        x = x.wrapping_mul(1103515245).wrapping_add(12345);
        let name = format!("/srv/d{}/n{}", i, (x >> 16) % 7);
        children.push(child(&name, (x >> 8) % 3 == 0));
    }
    let entries = list_entries("/srv", "/srv", &children);
    let mut expected: Vec<(bool, String, String)> = children
        .iter()
        .map(|c| (c.is_dir, c.path.rsplit('/').next().unwrap().to_string(), c.path[5..].to_string()))
        .collect();
    expected.sort_by(|a, b| b.0.cmp(&a.0).then(a.1.cmp(&b.1)));
    assert_eq!(entries.len(), expected.len());
    for (e, x) in entries.iter().zip(expected.iter()) {
        assert_eq!((e.is_dir, e.name.as_str(), e.href.as_str()), (x.0, x.1.as_str(), x.2.as_str()));
    }
}

#[test]
fn a_child_outside_the_root_keeps_its_path_as_link() {
    let children = vec![child("/elsewhere/f.txt", false)];
    let entries = list_entries("/srv", "/srv", &children);
    assert_eq!(hrefs(&entries), ["/elsewhere/f.txt"]);
    assert_eq!(names(&entries), ["f.txt"]);
}

#[test]
fn byte_order_is_lexicographic() {
    assert!(bytes_before_or_equal(b"", b""));
    assert!(bytes_before_or_equal(b"", b"a"));
    assert!(!bytes_before_or_equal(b"a", b""));
    assert!(bytes_before_or_equal(b"a", b"a"));
    assert!(bytes_before_or_equal(b"a", b"ab"));
    assert!(!bytes_before_or_equal(b"ab", b"a"));
    assert!(bytes_before_or_equal(b"ab", b"b"));
    assert!(!bytes_before_or_equal(b"b", b"ab"));
    assert!(bytes_before_or_equal(b"Z", b"a"));
    assert!(bytes_before_or_equal(b"a\x7f", b"a\x80"));
}

#[test]
fn entry_order_puts_directories_first() {
    let dir = entry("z", "z", true);
    let file = entry("a", "a", false);
    assert!(entry_before_or_equal(&dir, &file));
    assert!(!entry_before_or_equal(&file, &dir));
    assert!(entry_before_or_equal(&file, &file));
    assert!(entry_before_or_equal(&entry("x", "a", true), &entry("y", "b", true)));
    assert!(!entry_before_or_equal(&entry("x", "b", false), &entry("y", "a", false)));
}

#[test]
fn insert_entry_goes_behind_its_equals() {
    let mut out = Vec::new();
    insert_entry(&mut out, entry("1", "m", false));
    insert_entry(&mut out, entry("2", "m", false));
    insert_entry(&mut out, entry("3", "a", false));
    insert_entry(&mut out, entry("4", "z", true));
    insert_entry(&mut out, entry("5", "m", false));
    insert_entry(&mut out, entry("6", "z", true));
    assert_eq!(hrefs(&out), ["4", "6", "3", "1", "2", "5"]);
}

#[test]
fn page_of_an_empty_directory() {
    let html = render_page("/srv", &Vec::new());
    assert_eq!(html, format!("{}/srv{}/srv{}{}", PAGE_HEAD, PAGE_STYLE, PAGE_LIST, PAGE_FOOT));
    assert!(html.starts_with("<!DOCTYPE html>\n<html lang=\"en\">\n<head>\n"));
    assert!(html.contains("<title>Directory listing for /srv</title>"));
    assert!(html.contains("<h1>Directory listing for /srv</h1>\n    <ul>\n    \n    </ul>\n</body>\n</html>"));
    assert!(html.ends_with("</html>"));
}

#[test]
fn page_lists_entries_one_per_line() {
    let entries = vec![entry("..", "Parent Directory", true), entry("sub/a.txt", "a.txt", false)];
    let html = render_page("/srv/sub", &entries);
    let list = "<li><a href=\"..\"><span class=\"icon\">\u{1F4C1}</span>\
<span class=\"name\">Parent Directory</span></a></li>\n\
<li><a href=\"sub/a.txt\"><span class=\"icon\">\u{1F4C4}</span>\
<span class=\"name\">a.txt</span></a></li>";
    assert_eq!(
        html,
        format!("{}/srv/sub{}/srv/sub{}{}{}", PAGE_HEAD, PAGE_STYLE, PAGE_LIST, list, PAGE_FOOT)
    );
    assert_eq!(html.matches("<li>").count(), 2);
}

#[test]
fn page_writes_names_without_escaping() {
    let entries = vec![entry("a\"b", "<b>&", false)];
    let html = render_page("/srv", &entries);
    assert!(html.contains("<a href=\"a\"b\">"));
    assert!(html.contains("<span class=\"name\"><b>&</span>"));
}

#[test]
fn page_pieces() {
    assert_eq!(DIR_ICON, "\u{1F4C1}");
    assert_eq!(FILE_ICON, "\u{1F4C4}");
    assert!(PAGE_HEAD.ends_with("<title>Directory listing for "));
    assert!(PAGE_STYLE.starts_with("</title>\n    <style>\n        body {\n            font-family: Arial, sans-serif;"));
    assert!(PAGE_STYLE.ends_with("</head>\n<body>\n    <h1>Directory listing for "));
    assert_eq!(PAGE_LIST, "</h1>\n    <ul>\n    ");
    assert_eq!(PAGE_FOOT, "\n    </ul>\n</body>\n</html>");
}
