//! Directory listings: the entries of a directory, the order in which they
//! are shown, and the page that shows them.

use crate::path::{
    file_name, file_name_of, is_same_path, relative_path, relative_to, same_path,
};
use crate::text::{chars_of, string_of};
use vstd::prelude::*;
use vstd::seq_lib::{to_multiset_build, to_multiset_insert};
use vstd::string::*;
use vstd::utf8::encode_utf8;

verus! {

/// One child of a directory, as the enumeration found it.
#[derive(Debug)]
pub struct Child {
    pub path: String,
    pub is_dir: bool,
}

/// A child, as plain values.
pub struct ChildView {
    pub path: Seq<char>,
    pub is_dir: bool,
}

impl View for Child {
    type V = ChildView;

    open spec fn view(&self) -> ChildView {
        ChildView { path: self.path@, is_dir: self.is_dir }
    }
}

/// One line of a listing: where the link leads, the name shown, and whether
/// it is a directory.
#[derive(Debug)]
pub struct Entry {
    pub href: String,
    pub name: String,
    pub is_dir: bool,
}

/// An entry, as plain values.
pub struct EntryView {
    pub href: Seq<char>,
    pub name: Seq<char>,
    pub is_dir: bool,
}

impl View for Entry {
    type V = EntryView;

    open spec fn view(&self) -> EntryView {
        EntryView { href: self.href@, name: self.name@, is_dir: self.is_dir }
    }
}

/// The children that a vector holds.
pub open spec fn child_views(cs: Seq<Child>) -> Seq<ChildView> {
    cs.map_values(|c: Child| c@)
}

/// The entries that a vector holds.
pub open spec fn entry_views(es: Seq<Entry>) -> Seq<EntryView> {
    es.map_values(|e: Entry| e@)
}

/// Lexicographic order on byte strings; a proper prefix comes first.
pub open spec fn bytes_le(a: Seq<u8>, b: Seq<u8>) -> bool
    decreases a.len(),
{
    a.len() == 0 || (b.len() > 0 && (a[0] < b[0] || (a[0] == b[0] && bytes_le(
        a.drop_first(),
        b.drop_first(),
    ))))
}

/// Names are ordered by their UTF-8 bytes.
pub open spec fn name_le(a: Seq<char>, b: Seq<char>) -> bool {
    bytes_le(encode_utf8(a), encode_utf8(b))
}

/// The order of a listing: directories before files, and by name within each.
pub open spec fn entry_le(a: EntryView, b: EntryView) -> bool {
    if a.is_dir != b.is_dir {
        a.is_dir
    } else {
        name_le(a.name, b.name)
    }
}

/// No entry stands before one that the order puts ahead of it.
pub open spec fn ordered(s: Seq<EntryView>) -> bool {
    forall|i: int, j: int| 0 <= i < j < s.len() ==> entry_le(#[trigger] s[i], #[trigger] s[j])
}

/// Where `e` goes into the ordered sequence `s`: behind the last entry that
/// does not come after it.
pub open spec fn rank(s: Seq<EntryView>, e: EntryView) -> nat
    decreases s.len(),
{
    if s.len() == 0 {
        0
    } else if entry_le(s.last(), e) {
        s.len()
    } else {
        rank(s.drop_last(), e)
    }
}

/// The entries of `s` in listing order. Entries that the order does not tell
/// apart keep the order they had in `s`.
pub open spec fn sorted(s: Seq<EntryView>) -> Seq<EntryView>
    decreases s.len(),
{
    if s.len() == 0 {
        s
    } else {
        let t = sorted(s.drop_last());
        t.insert(rank(t, s.last()) as int, s.last())
    }
}

/// Of any two byte strings, one does not come after the other.
pub proof fn lemma_bytes_le_total(a: Seq<u8>, b: Seq<u8>)
    ensures
        bytes_le(a, b) || bytes_le(b, a),
    decreases a.len(),
{
    if a.len() > 0 && b.len() > 0 && a[0] == b[0] {
        lemma_bytes_le_total(a.drop_first(), b.drop_first());
    }
}

/// The order on byte strings is transitive.
pub proof fn lemma_bytes_le_transitive(a: Seq<u8>, b: Seq<u8>, c: Seq<u8>)
    requires
        bytes_le(a, b),
        bytes_le(b, c),
    ensures
        bytes_le(a, c),
    decreases a.len(),
{
    if a.len() > 0 && a[0] == b[0] && b[0] == c[0] {
        lemma_bytes_le_transitive(a.drop_first(), b.drop_first(), c.drop_first());
    }
}

/// Of any two entries, one does not come after the other.
pub proof fn lemma_entry_le_total(a: EntryView, b: EntryView)
    ensures
        entry_le(a, b) || entry_le(b, a),
{
    lemma_bytes_le_total(encode_utf8(a.name), encode_utf8(b.name));
}

/// The order of a listing is transitive.
pub proof fn lemma_entry_le_transitive(a: EntryView, b: EntryView, c: EntryView)
    requires
        entry_le(a, b),
        entry_le(b, c),
    ensures
        entry_le(a, c),
{
    if a.is_dir == b.is_dir && b.is_dir == c.is_dir {
        lemma_bytes_le_transitive(encode_utf8(a.name), encode_utf8(b.name), encode_utf8(c.name));
    }
}

/// What `rank` says of the entries on either side of the place it names.
pub proof fn lemma_rank(s: Seq<EntryView>, e: EntryView)
    requires
        ordered(s),
    ensures
        rank(s, e) <= s.len(),
        forall|i: int| 0 <= i < rank(s, e) ==> entry_le(#[trigger] s[i], e),
        forall|j: int| rank(s, e) <= j < s.len() ==> !entry_le(#[trigger] s[j], e),
    decreases s.len(),
{
    if s.len() == 0 {
        return ;
    }
    if entry_le(s.last(), e) {
        assert forall|i: int| 0 <= i < s.len() implies entry_le(#[trigger] s[i], e) by {
            if i < s.len() - 1 {
                lemma_entry_le_transitive(s[i], s.last(), e);
            }
        }
    } else {
        let t = s.drop_last();
        assert(ordered(t));
        lemma_rank(t, e);
        assert forall|i: int| 0 <= i < rank(s, e) implies entry_le(#[trigger] s[i], e) by {
            assert(s[i] == t[i]);
        }
        assert forall|j: int| rank(s, e) <= j < s.len() implies !entry_le(#[trigger] s[j], e) by {
            if j < t.len() {
                assert(s[j] == t[j]);
            }
        }
    }
}

/// Putting an entry at its rank keeps an ordered sequence ordered.
pub proof fn lemma_insert_keeps_order(s: Seq<EntryView>, e: EntryView)
    requires
        ordered(s),
    ensures
        ordered(s.insert(rank(s, e) as int, e)),
{
    lemma_rank(s, e);
    let k = rank(s, e) as int;
    let t = s.insert(k, e);
    assert forall|i: int, j: int| 0 <= i < j < t.len() implies entry_le(
        #[trigger] t[i],
        #[trigger] t[j],
    ) by {
        if i == k {
            lemma_entry_le_total(s[j - 1], e);
        }
    }
}

/// A sorted listing is in listing order.
pub proof fn lemma_sorted_is_ordered(s: Seq<EntryView>)
    ensures
        ordered(sorted(s)),
    decreases s.len(),
{
    if s.len() > 0 {
        lemma_sorted_is_ordered(s.drop_last());
        lemma_insert_keeps_order(sorted(s.drop_last()), s.last());
    }
}

/// Sorting neither adds, drops nor repeats an entry.
pub proof fn lemma_sorted_is_permutation(s: Seq<EntryView>)
    ensures
        sorted(s).len() == s.len(),
        sorted(s).to_multiset() == s.to_multiset(),
    decreases s.len(),
{
    if s.len() > 0 {
        let r = s.drop_last();
        let t = sorted(r);
        lemma_sorted_is_permutation(r);
        lemma_sorted_is_ordered(r);
        lemma_rank(t, s.last());
        to_multiset_insert(t, rank(t, s.last()) as int, s.last());
        to_multiset_build(r, s.last());
        assert(r.push(s.last()) =~= s);
    }
}

/// Two entries that the order does not tell apart.
pub open spec fn same_rank(a: EntryView, b: EntryView) -> bool {
    entry_le(a, b) && entry_le(b, a)
}

proof fn lemma_filter_none(s: Seq<EntryView>, pred: spec_fn(EntryView) -> bool)
    requires
        forall|i: int| 0 <= i < s.len() ==> !pred(#[trigger] s[i]),
    ensures
        s.filter(pred) == Seq::<EntryView>::empty(),
    decreases s.len(),
{
    reveal(Seq::filter);
    if s.len() > 0 {
        lemma_filter_none(s.drop_last(), pred);
    }
}

/// Sorting is stable: the entries that the order does not tell apart from `e`
/// come out in the order in which they went in.
pub proof fn lemma_sorted_is_stable(s: Seq<EntryView>, e: EntryView)
    ensures
        sorted(s).filter(|x: EntryView| same_rank(x, e)) == s.filter(
            |x: EntryView| same_rank(x, e),
        ),
    decreases s.len(),
{
    let pred = |x: EntryView| same_rank(x, e);
    reveal(Seq::filter);
    if s.len() > 0 {
        let r = s.drop_last();
        let x = s.last();
        let t = sorted(r);
        let k = rank(t, x) as int;
        lemma_sorted_is_stable(r, e);
        lemma_sorted_is_ordered(r);
        lemma_rank(t, x);
        let front = t.take(k);
        let back = t.skip(k);
        assert(t.insert(k, x) =~= front + seq![x] + back);
        assert(t =~= front + back);
        Seq::filter_distributes_over_add(front + seq![x], back, pred);
        Seq::filter_distributes_over_add(front, seq![x], pred);
        Seq::filter_distributes_over_add(front, back, pred);
        assert(seq![x].drop_last() =~= Seq::<EntryView>::empty());
        assert(Seq::<EntryView>::empty().filter(pred) =~= Seq::<EntryView>::empty());
        if pred(x) {
            assert forall|i: int| 0 <= i < back.len() implies !pred(#[trigger] back[i]) by {
                if pred(back[i]) {
                    lemma_entry_le_transitive(back[i], e, x);
                }
            }
            lemma_filter_none(back, pred);
        }
    }
}

/// Every entry of a sorted listing is one of the entries that were sorted.
pub proof fn lemma_sorted_holds_its_entries(s: Seq<EntryView>, i: int)
    requires
        0 <= i < sorted(s).len(),
    ensures
        s.contains(sorted(s)[i]),
{
    lemma_sorted_is_permutation(s);
    let e = sorted(s)[i];
    sorted(s).to_multiset_ensures();
    s.to_multiset_ensures();
    assert(s.to_multiset().count(e) > 0);
}

/// Whether `a` does not come after `b` in lexicographic order.
pub fn bytes_before_or_equal(a: &[u8], b: &[u8]) -> (r: bool)
    ensures
        r == bytes_le(a@, b@),
{
    let mut i: usize = 0;
    assert(a@.skip(0) =~= a@ && b@.skip(0) =~= b@);
    while i < a.len() && i < b.len()
        invariant
            i <= a.len(),
            i <= b.len(),
            bytes_le(a@, b@) == bytes_le(a@.skip(i as int), b@.skip(i as int)),
        decreases a.len() - i,
    {
        if a[i] < b[i] {
            return true;
        }
        if a[i] > b[i] {
            return false;
        }
        assert(a@.skip(i as int).drop_first() =~= a@.skip(i + 1));
        assert(b@.skip(i as int).drop_first() =~= b@.skip(i + 1));
        i = i + 1;
    }
    a.len() <= b.len()
}

/// Whether `a` does not come after `b` in a listing.
pub fn entry_before_or_equal(a: &Entry, b: &Entry) -> (r: bool)
    ensures
        r == entry_le(a@, b@),
{
    if a.is_dir != b.is_dir {
        a.is_dir
    } else {
        bytes_before_or_equal(a.name.as_str().as_bytes(), b.name.as_str().as_bytes())
    }
}

/// Puts `e` at its rank in `out`.
pub fn insert_entry(out: &mut Vec<Entry>, e: Entry)
    ensures
        entry_views(final(out)@) == entry_views(old(out)@).insert(
            rank(entry_views(old(out)@), e@) as int,
            e@,
        ),
{
    let ghost s = entry_views(out@);
    let mut pos: usize = out.len();
    assert(s.take(pos as int) =~= s);
    while pos > 0 && !entry_before_or_equal(&out[pos - 1], &e)
        invariant
            pos <= out.len(),
            s == entry_views(out@),
            rank(s, e@) == rank(s.take(pos as int), e@),
        decreases pos,
    {
        assert(s.take(pos as int).drop_last() =~= s.take(pos - 1));
        pos = pos - 1;
    }
    out.insert(pos, e);
}

/// The entry that stands for a child: its link is its path as seen from the
/// root, its name the last component of its path.
pub open spec fn entry_of(root: Seq<char>, c: ChildView) -> EntryView {
    EntryView { href: relative_to(c.path, root), name: file_name(c.path), is_dir: c.is_dir }
}

/// The link to the directory above.
pub open spec fn parent_entry() -> EntryView {
    EntryView { href: ".."@, name: "Parent Directory"@, is_dir: true }
}

/// The entries that stand for the children, in the order of the children.
pub open spec fn entries_of(root: Seq<char>, children: Seq<ChildView>) -> Seq<EntryView> {
    children.map_values(|c: ChildView| entry_of(root, c))
}

/// The entries of the children in listing order.
pub open spec fn child_entries(root: Seq<char>, children: Seq<ChildView>) -> Seq<EntryView> {
    sorted(entries_of(root, children))
}

/// The listing of `dir`: the children in listing order, and before them the
/// link to the parent, unless `dir` is the root itself.
pub open spec fn listing(root: Seq<char>, dir: Seq<char>, children: Seq<ChildView>) -> Seq<
    EntryView,
> {
    if same_path(dir, root) {
        child_entries(root, children)
    } else {
        seq![parent_entry()] + child_entries(root, children)
    }
}

/// The entries of the children: one for each child, none else, in listing
/// order.
pub fn sorted_children(root: &str, children: &Vec<Child>) -> (out: Vec<Entry>)
    ensures
        entry_views(out@) == child_entries(root@, child_views(children@)),
        ordered(entry_views(out@)),
        entry_views(out@).to_multiset() == entries_of(root@, child_views(children@)).to_multiset(),
{
    let root_chars = chars_of(root);
    let mut out: Vec<Entry> = Vec::new();
    let ghost mapped = entries_of(root@, child_views(children@));
    let mut i: usize = 0;
    while i < children.len()
        invariant
            i <= children.len(),
            root_chars@ == root@,
            mapped == entries_of(root@, child_views(children@)),
            entry_views(out@) == sorted(mapped.take(i as int)),
        decreases children.len() - i,
    {
        let path = chars_of(children[i].path.as_str());
        let href = relative_path(&path, &root_chars);
        let name = file_name_of(&path);
        let e = Entry { href: string_of(&href), name: string_of(&name), is_dir: children[i].is_dir };
        assert(mapped.take(i + 1).drop_last() =~= mapped.take(i as int));
        insert_entry(&mut out, e);
        i = i + 1;
    }
    proof {
        assert(mapped.take(children.len() as int) =~= mapped);
        lemma_sorted_is_ordered(mapped);
        lemma_sorted_is_permutation(mapped);
    }
    out
}

/// The listing of `dir`, a directory at or below `root`, from its children.
pub fn list_entries(root: &str, dir: &str, children: &Vec<Child>) -> (out: Vec<Entry>)
    ensures
        entry_views(out@) == listing(root@, dir@, child_views(children@)),
        same_path(dir@, root@) ==> out.len() == children.len(),
        !same_path(dir@, root@) ==> out.len() == children.len() + 1 && out@[0]@ == parent_entry(),
{
    let root_chars = chars_of(root);
    let dir_chars = chars_of(dir);
    let mut out = sorted_children(root, children);
    proof {
        lemma_sorted_is_permutation(entries_of(root@, child_views(children@)));
    }
    if !is_same_path(&dir_chars, &root_chars) {
        let parent = Entry { href: "..".to_owned(), name: "Parent Directory".to_owned(), is_dir: true };
        out.insert(0, parent);
    }
    out
}

/// The listing of the root has no link to a parent directory. Any other
/// listing has one, and it comes first. This is said of children of which none
/// is itself reached by the link `..`.
pub proof fn lemma_parent_link(root: Seq<char>, dir: Seq<char>, children: Seq<ChildView>)
    requires
        forall|i: int| 0 <= i < children.len() ==> relative_to(children[i].path, root) != ".."@,
    ensures
        same_path(dir, root) ==> listing(root, dir, children).len() == children.len(),
        same_path(dir, root) ==> forall|i: int|
            0 <= i < children.len() ==> (#[trigger] listing(root, dir, children)[i]).href != ".."@,
        !same_path(dir, root) ==> listing(root, dir, children).len() == children.len() + 1,
        !same_path(dir, root) ==> listing(root, dir, children)[0] == parent_entry(),
        !same_path(dir, root) ==> forall|i: int|
            1 <= i <= children.len() ==> (#[trigger] listing(root, dir, children)[i]).href
                != ".."@,
{
    let mapped = entries_of(root, children);
    let es = child_entries(root, children);
    lemma_sorted_is_permutation(mapped);
    assert forall|k: int| 0 <= k < es.len() implies (#[trigger] es[k]).href != ".."@ by {
        lemma_sorted_holds_its_entries(mapped, k);
    }
    if !same_path(dir, root) {
        let l = listing(root, dir, children);
        assert(forall|i: int| 1 <= i <= children.len() ==> l[i] == es[i - 1]);
    }
}

/// The page up to the directory's name in its title.
pub const PAGE_HEAD: &'static str = r#"<!DOCTYPE html>
<html lang="en">
<head>
    <meta charset="utf-8">
    <meta name="viewport" content="width=device-width, initial-scale=1">
    <title>Directory listing for "#;

/// From the title to the directory's name in the heading.
pub const PAGE_STYLE: &'static str = r#"</title>
    <style>
        body {
            font-family: Arial, sans-serif;
            line-height: 1.6;
            color: #333;
            max-width: 800px;
            margin: 0 auto;
            padding: 20px;
        }
        h1 {
            border-bottom: 1px solid #ccc;
            padding-bottom: 10px;
        }
        ul {
            list-style-type: none;
            padding: 0;
        }
        li {
            margin-bottom: 10px;
        }
        a {
            text-decoration: none;
            color: #0066cc;
            display: flex;
            align-items: center;
        }
        a:hover {
            text-decoration: underline;
        }
        .icon {
            margin-right: 10px;
            font-size: 1.2em;
        }
        .name {
            flex-grow: 1;
        }
    </style>
</head>
<body>
    <h1>Directory listing for "#;

/// From the heading to the first entry.
pub const PAGE_LIST: &'static str = r#"</h1>
    <ul>
    "#;

/// What closes the page after the last entry.
pub const PAGE_FOOT: &'static str = r#"
    </ul>
</body>
</html>"#;

/// What stands before the link of an entry.
pub const ITEM_OPEN: &'static str = r#"<li><a href=""#;

/// Between the link and the icon.
pub const ITEM_ICON: &'static str = r#""><span class="icon">"#;

/// Between the icon and the name.
pub const ITEM_NAME: &'static str = r#"</span><span class="name">"#;

/// What closes an entry.
pub const ITEM_CLOSE: &'static str = "</span></a></li>";

/// The icon of a directory, a folder.
pub const DIR_ICON: &'static str = "\u{1F4C1}";

/// The icon of a file, a page.
pub const FILE_ICON: &'static str = "\u{1F4C4}";

/// The icon that goes with an entry.
pub open spec fn icon(is_dir: bool) -> Seq<char> {
    if is_dir {
        DIR_ICON@
    } else {
        FILE_ICON@
    }
}

/// One list item. Link and name are written as they are, without escaping.
pub open spec fn item_html(e: EntryView) -> Seq<char> {
    ITEM_OPEN@ + e.href + ITEM_ICON@ + icon(e.is_dir) + ITEM_NAME@ + e.name + ITEM_CLOSE@
}

/// The list items, with a line feed between neighbours.
pub open spec fn items_html(es: Seq<EntryView>) -> Seq<char>
    decreases es.len(),
{
    if es.len() == 0 {
        Seq::empty()
    } else if es.len() == 1 {
        item_html(es[0])
    } else {
        items_html(es.drop_last()) + seq!['\n'] + item_html(es.last())
    }
}

/// The page that lists `es` as the contents of `dir`.
pub open spec fn page(dir: Seq<char>, es: Seq<EntryView>) -> Seq<char> {
    PAGE_HEAD@ + dir + PAGE_STYLE@ + dir + PAGE_LIST@ + items_html(es) + PAGE_FOOT@
}

/// The page that lists `entries` as the contents of `dir`.
pub fn render_page(dir: &str, entries: &Vec<Entry>) -> (html: String)
    ensures
        html@ == page(dir@, entry_views(entries@)),
{
    let mut html = PAGE_HEAD.to_owned();
    html.append(dir);
    html.append(PAGE_STYLE);
    html.append(dir);
    html.append(PAGE_LIST);
    let ghost head = html@;
    let ghost es = entry_views(entries@);
    let mut i: usize = 0;
    while i < entries.len()
        invariant
            i <= entries.len(),
            es == entry_views(entries@),
            html@ == head + items_html(es.take(i as int)),
        decreases entries.len() - i,
    {
        assert(es.take(i + 1).drop_last() =~= es.take(i as int));
        if i > 0 {
            html.push('\n');
        }
        let e = &entries[i];
        html.append(ITEM_OPEN);
        html.append(e.href.as_str());
        html.append(ITEM_ICON);
        if e.is_dir {
            html.append(DIR_ICON);
        } else {
            html.append(FILE_ICON);
        }
        html.append(ITEM_NAME);
        html.append(e.name.as_str());
        html.append(ITEM_CLOSE);
        assert(html@ =~= head + items_html(es.take(i + 1)));
        i = i + 1;
    }
    assert(es.take(entries.len() as int) =~= es);
    html.append(PAGE_FOOT);
    html
}

} // verus!
