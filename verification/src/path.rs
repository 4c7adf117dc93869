//! Paths as text with `/` between their components: joining onto a root,
//! component-wise containment, file names and extensions.

use crate::text::{
    append_chars, find_char, index_of, lemma_index_of, lemma_index_of_bounds, rows, same_chars,
    slice_of,
};
use vstd::prelude::*;

verus! {

/// A path is absolute when it begins with the separator.
pub open spec fn is_absolute(p: Seq<char>) -> bool {
    p.len() > 0 && p[0] == '/'
}

/// The names between the separators of `p`, in order. Empty names (from doubled
/// or trailing separators) and `.` are not components; `..` is one.
pub open spec fn components(p: Seq<char>) -> Seq<Seq<char>>
    decreases p.len(),
{
    if p.len() == 0 {
        Seq::empty()
    } else {
        let i = index_of(p, '/') as int;
        let head = p.take(i);
        let tail = if i < p.len() {
            components(p.skip(i + 1))
        } else {
            Seq::empty()
        };
        if head.len() == 0 || head == seq!['.'] {
            tail
        } else {
            seq![head] + tail
        }
    }
}

/// `p` lies at or below `base`: both are absolute or both are not, and the
/// components of `base` are the first components of `p`. Whole components are
/// compared, so `/root-evil` does not start with `/root`.
pub open spec fn starts_with(p: Seq<char>, base: Seq<char>) -> bool {
    is_absolute(p) == is_absolute(base) && components(base).is_prefix_of(components(p))
}

/// Two paths that name the same place component by component.
pub open spec fn same_path(a: Seq<char>, b: Seq<char>) -> bool {
    is_absolute(a) == is_absolute(b) && components(a) == components(b)
}

/// `rel` placed under `root`: `root`, one separator unless `root` ends in one,
/// then `rel` as it is. A `rel` that begins with a separator does not take
/// the place of `root`; its separator only doubles the one between the two.
pub open spec fn join(root: Seq<char>, rel: Seq<char>) -> Seq<char> {
    if root.len() == 0 || root.last() == '/' {
        root + rel
    } else {
        root + seq!['/'] + rel
    }
}

/// `p` without one leading separator.
pub open spec fn strip_leading_slash(p: Seq<char>) -> Seq<char> {
    if is_absolute(p) {
        p.skip(1)
    } else {
        p
    }
}

/// The last component of `p`; empty when `p` has no component or ends in `..`.
pub open spec fn file_name(p: Seq<char>) -> Seq<char> {
    let c = components(p);
    if c.len() == 0 || c.last() == seq!['.', '.'] {
        Seq::empty()
    } else {
        c.last()
    }
}

/// Index of the last `c` in `s`, or `-1` when `s` holds none.
pub open spec fn last_index_of(s: Seq<char>, c: char) -> int
    decreases s.len(),
{
    if s.len() == 0 {
        -1
    } else if s.last() == c {
        s.len() - 1
    } else {
        last_index_of(s.drop_last(), c)
    }
}

/// What follows the last `.` of a file name. A name without a `.`, or whose
/// only `.` is its first character, has the empty extension.
pub open spec fn extension(name: Seq<char>) -> Seq<char> {
    let i = last_index_of(name, '.');
    if i > 0 {
        name.skip(i + 1)
    } else {
        Seq::empty()
    }
}

/// The components `cs` with one separator between neighbours.
pub open spec fn join_components(cs: Seq<Seq<char>>) -> Seq<char>
    decreases cs.len(),
{
    if cs.len() == 0 {
        Seq::empty()
    } else if cs.len() == 1 {
        cs[0]
    } else {
        join_components(cs.drop_last()) + seq!['/'] + cs.last()
    }
}

/// `p` as seen from `base`: the components of `p` after those of `base`, or `p`
/// itself when it does not lie below `base`.
pub open spec fn relative_to(p: Seq<char>, base: Seq<char>) -> Seq<char> {
    if starts_with(p, base) {
        join_components(components(p).skip(components(base).len() as int))
    } else {
        p
    }
}

/// The components of `a`, a separator and `b` are those of `a`, then those
/// of `b`.
pub proof fn lemma_components_across_separator(a: Seq<char>, b: Seq<char>)
    ensures
        components(a + seq!['/'] + b) == components(a) + components(b),
    decreases a.len(),
{
    let s = a + seq!['/'] + b;
    lemma_index_of_bounds(a, '/');
    let i = index_of(a, '/') as int;
    if a.len() == 0 {
        assert(s.skip(1) =~= b);
    } else if i < a.len() {
        lemma_index_of(s, '/', i);
        assert(s.take(i) =~= a.take(i));
        assert(s.skip(i + 1) =~= a.skip(i + 1) + seq!['/'] + b);
        lemma_components_across_separator(a.skip(i + 1), b);
    } else {
        lemma_index_of(s, '/', a.len() as int);
        assert(s.take(a.len() as int) =~= a);
        assert(a.take(a.len() as int) =~= a);
        assert(s.skip(a.len() as int + 1) =~= b);
    }
}

/// Joining a path onto a root puts its components behind those of the root,
/// and leaves the result absolute where the root is.
pub proof fn lemma_join_components(root: Seq<char>, rel: Seq<char>)
    requires
        root.len() > 0,
    ensures
        components(join(root, rel)) == components(root) + components(rel),
        is_absolute(join(root, rel)) == is_absolute(root),
{
    if root.last() == '/' {
        let stem = root.drop_last();
        assert(root =~= stem + seq!['/'] + Seq::<char>::empty());
        lemma_components_across_separator(stem, rel);
        lemma_components_across_separator(stem, Seq::<char>::empty());
    } else {
        lemma_components_across_separator(root, rel);
    }
}

/// Whatever is joined onto a root lies below it, component by component: no
/// path takes the place of the root.
pub proof fn lemma_join_stays_below(root: Seq<char>, rel: Seq<char>)
    requires
        root.len() > 0,
    ensures
        starts_with(join(root, rel), root),
{
    lemma_join_components(root, rel);
}

/// The empty path, and the path that is one separator, lead to the root.
pub proof fn lemma_empty_path_is_root(root: Seq<char>)
    requires
        root.len() > 0,
    ensures
        same_path(join(root, strip_leading_slash(Seq::<char>::empty())), root),
        same_path(join(root, strip_leading_slash(seq!['/'])), root),
{
    lemma_join_components(root, Seq::<char>::empty());
}

/// The components of `p`.
pub fn components_of(p: &Vec<char>) -> (out: Vec<Vec<char>>)
    ensures
        rows(out@) == components(p@),
{
    let mut out: Vec<Vec<char>> = Vec::new();
    let mut pos: usize = 0;
    assert(p@.skip(0) =~= p@);
    while pos < p.len()
        invariant
            pos <= p.len(),
            rows(out@) + components(p@.skip(pos as int)) == components(p@),
        decreases p.len() - pos,
    {
        let i = find_char(p, pos, '/');
        let ghost rest = p@.skip(pos as int);
        assert(rest.take(i - pos) =~= p@.subrange(pos as int, i as int));
        assert(i < p.len() ==> rest.skip(i - pos + 1) =~= p@.skip(i + 1));
        if i > pos && !(i == pos + 1 && p[pos] == '.') {
            out.push(slice_of(p, pos, i));
        } else {
            assert(i == pos + 1 ==> rest.take(i - pos) =~= seq!['.']);
        }
        if i < p.len() {
            pos = i + 1;
        } else {
            pos = i;
        }
    }
    out
}

/// Whether `p` is absolute.
pub fn is_absolute_path(p: &Vec<char>) -> (r: bool)
    ensures
        r == is_absolute(p@),
{
    p.len() > 0 && p[0] == '/'
}

/// Whether the names `base` are the first names of `cs`.
pub fn has_prefix(cs: &Vec<Vec<char>>, base: &Vec<Vec<char>>) -> (r: bool)
    ensures
        r == rows(base@).is_prefix_of(rows(cs@)),
{
    if base.len() > cs.len() {
        return false;
    }
    let mut i: usize = 0;
    while i < base.len()
        invariant
            i <= base.len() <= cs.len(),
            forall|j: int| 0 <= j < i ==> rows(base@)[j] == rows(cs@)[j],
        decreases base.len() - i,
    {
        if !same_chars(&base[i], &cs[i]) {
            assert(rows(base@)[i as int] != rows(cs@).subrange(0, base.len() as int)[i as int]);
            return false;
        }
        i = i + 1;
    }
    true
}

/// Whether `p` lies at or below `base`.
pub fn path_starts_with(p: &Vec<char>, base: &Vec<char>) -> (r: bool)
    ensures
        r == starts_with(p@, base@),
{
    if is_absolute_path(p) != is_absolute_path(base) {
        return false;
    }
    let cs = components_of(p);
    let bs = components_of(base);
    has_prefix(&cs, &bs)
}

/// Whether `a` and `b` name the same place.
pub fn is_same_path(a: &Vec<char>, b: &Vec<char>) -> (r: bool)
    ensures
        r == same_path(a@, b@),
{
    if is_absolute_path(a) != is_absolute_path(b) {
        return false;
    }
    let ca = components_of(a);
    let cb = components_of(b);
    let r = ca.len() == cb.len() && has_prefix(&ca, &cb);
    proof {
        let ra = rows(ca@);
        let rb = rows(cb@);
        if ra.len() == rb.len() {
            assert(ra.subrange(0, rb.len() as int) =~= ra);
        }
    }
    r
}

/// `rel` placed under `root`.
pub fn join_path(root: &Vec<char>, rel: &Vec<char>) -> (out: Vec<char>)
    ensures
        out@ == join(root@, rel@),
{
    let mut out: Vec<char> = Vec::new();
    append_chars(&mut out, root);
    if root.len() > 0 && root[root.len() - 1] != '/' {
        out.push('/');
    }
    append_chars(&mut out, rel);
    out
}

/// `p` as seen from `base`.
pub fn relative_path(p: &Vec<char>, base: &Vec<char>) -> (out: Vec<char>)
    ensures
        out@ == relative_to(p@, base@),
{
    let mut out: Vec<char> = Vec::new();
    if is_absolute_path(p) != is_absolute_path(base) {
        append_chars(&mut out, p);
        return out;
    }
    let cs = components_of(p);
    let bs = components_of(base);
    if !has_prefix(&cs, &bs) {
        append_chars(&mut out, p);
        return out;
    }
    let mut i: usize = bs.len();
    let ghost names = rows(cs@);
    while i < cs.len()
        invariant
            bs.len() <= i <= cs.len(),
            names == rows(cs@),
            out@ == join_components(names.subrange(bs.len() as int, i as int)),
        decreases cs.len() - i,
    {
        assert(names.subrange(bs.len() as int, i + 1).drop_last() =~= names.subrange(
            bs.len() as int,
            i as int,
        ));
        if i > bs.len() {
            out.push('/');
        }
        append_chars(&mut out, &cs[i]);
        i = i + 1;
    }
    out
}

/// `p` without one leading separator.
pub fn without_leading_slash(p: &Vec<char>) -> (out: Vec<char>)
    ensures
        out@ == strip_leading_slash(p@),
{
    if is_absolute_path(p) {
        slice_of(p, 1, p.len())
    } else {
        slice_of(p, 0, p.len())
    }
}

/// The last component of `p`.
pub fn file_name_of(p: &Vec<char>) -> (out: Vec<char>)
    ensures
        out@ == file_name(p@),
{
    let cs = components_of(p);
    if cs.len() == 0 {
        return Vec::new();
    }
    let last = &cs[cs.len() - 1];
    if last.len() == 2 && last[0] == '.' && last[1] == '.' {
        assert(last@ =~= seq!['.', '.']);
        return Vec::new();
    }
    slice_of(last, 0, last.len())
}

/// The extension of the file name `name`.
pub fn extension_of(name: &Vec<char>) -> (out: Vec<char>)
    ensures
        out@ == extension(name@),
{
    let mut i: usize = name.len();
    assert(name@.take(name@.len() as int) =~= name@);
    while i > 0 && name[i - 1] != '.'
        invariant
            i <= name.len(),
            last_index_of(name@, '.') == last_index_of(name@.take(i as int), '.'),
        decreases i,
    {
        assert(name@.take(i as int).drop_last() =~= name@.take(i - 1));
        i = i - 1;
    }
    if i > 1 {
        slice_of(name, i, name.len())
    } else {
        Vec::new()
    }
}

} // verus!
