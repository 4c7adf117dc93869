//! What to do with a request: which path to look at, what to answer once the
//! file system has said what is there, and the answers for a directory and for
//! a file. Looking at the file system is left to the caller.

use crate::listing::{
    child_entries, child_views, list_entries, listing, page, render_page, Child, ChildView,
};
use crate::mime::{content_disposition, disposition, get_mime_type, mime_type};
use crate::path::{
    extension, extension_of, file_name, file_name_of, join, join_path, lemma_empty_path_is_root,
    lemma_join_stays_below, path_starts_with, same_path, starts_with, strip_leading_slash, without_leading_slash,
};
use crate::request::Request;
use crate::response::{
    forbidden_view, not_found_view, ok_view, well_formed, Response, ResponseView,
};
use crate::text::{chars_of, string_of};
use vstd::prelude::*;
use vstd::string::*;
use vstd::utf8::encode_utf8;

verus! {

/// What the file system holds at a candidate path.
#[derive(Debug)]
pub enum Probe {
    /// Nothing is there.
    Absent,
    /// Something is there. `resolved` is its absolute path with every link and
    /// every `..` followed; `is_dir` tells a directory from a file.
    Present { resolved: String, is_dir: bool },
}

/// A probe, as plain values.
pub enum ProbeView {
    Absent,
    Present { resolved: Seq<char>, is_dir: bool },
}

impl View for Probe {
    type V = ProbeView;

    open spec fn view(&self) -> ProbeView {
        match self {
            Probe::Absent => ProbeView::Absent,
            Probe::Present { resolved, is_dir } => ProbeView::Present {
                resolved: resolved@,
                is_dir: *is_dir,
            },
        }
    }
}

/// What is to be done for a request once its path has been probed.
#[derive(Debug)]
pub enum Route {
    /// Send this response; nothing more is read.
    Respond(Response),
    /// List the children of this directory and answer with the listing.
    List(String),
    /// Read this file and answer with its contents.
    Read(String),
}

/// A route, as plain values.
pub enum RouteView {
    Respond(ResponseView),
    List(Seq<char>),
    Read(Seq<char>),
}

impl View for Route {
    type V = RouteView;

    open spec fn view(&self) -> RouteView {
        match self {
            Route::Respond(r) => RouteView::Respond(r@),
            Route::List(dir) => RouteView::List(dir@),
            Route::Read(file) => RouteView::Read(file@),
        }
    }
}

/// `url_escape::decode` replaces each `%` that two hexadecimal digits follow by
/// the byte they name, and reads the bytes it then has as UTF-8, with U+FFFD
/// for what is none. `percent_decoded` names that text.
pub uninterp spec fn percent_decoded(text: Seq<char>) -> Seq<char>;

/// Calls `url_escape::decode`. Taken on trust: the text it gives depends on
/// its argument alone, and a text without `%` comes back as it is.
#[verifier::external_body]
fn percent_decode(text: &str) -> (decoded: String)
    ensures
        decoded@ == percent_decoded(text@),
        !text@.contains('%') ==> decoded@ == text@,
{
    url_escape::decode(text).into_owned()
}

/// The path to look at for a decoded request path: the path without one
/// leading `/`, joined onto the root. It lies below the root as far as its
/// components tell; where it leads once links and `..` are followed is for the
/// probe to say.
pub open spec fn candidate(root: Seq<char>, decoded: Seq<char>) -> Seq<char> {
    join(root, strip_leading_slash(decoded))
}

/// The candidate for a request path that has been decoded already.
pub fn candidate_for(root: &str, decoded: &str) -> (c: String)
    ensures
        c@ == candidate(root@, decoded@),
        root@.len() > 0 ==> starts_with(c@, root@),
{
    proof {
        if root@.len() > 0 {
            lemma_join_stays_below(root@, strip_leading_slash(decoded@));
        }
    }
    let root_chars = chars_of(root);
    let decoded_chars = chars_of(decoded);
    let relative = without_leading_slash(&decoded_chars);
    let joined = join_path(&root_chars, &relative);
    string_of(&joined)
}

/// The path to look at for `request`: its path is decoded first, then
/// stripped and joined.
pub fn candidate_path(root: &str, request: &Request) -> (c: String)
    ensures
        c@ == candidate(root@, percent_decoded(request@.path)),
        !request@.path.contains('%') ==> c@ == candidate(root@, request@.path),
        root@.len() > 0 ==> starts_with(c@, root@),
{
    let decoded = percent_decode(request.resource.path.as_str());
    candidate_for(root, decoded.as_str())
}

/// The decision for a probed path. What is absent is not found; what lies
/// outside the root is forbidden, whatever it is; a directory is listed and a
/// file is read.
pub open spec fn routed(root: Seq<char>, probe: ProbeView) -> RouteView {
    match probe {
        ProbeView::Absent => RouteView::Respond(not_found_view()),
        ProbeView::Present { resolved, is_dir } => if !starts_with(resolved, root) {
            RouteView::Respond(forbidden_view())
        } else if is_dir {
            RouteView::List(resolved)
        } else {
            RouteView::Read(resolved)
        },
    }
}

/// Decides what to do for a probed path.
pub fn route(root: &str, probe: Probe) -> (r: Route)
    ensures
        r@ == routed(root@, probe@),
        probe@ is Absent ==> r@ == RouteView::Respond(not_found_view()),
        probe@ matches ProbeView::Present { resolved, .. } ==> (!starts_with(resolved, root@) ==> r@
            == RouteView::Respond(forbidden_view())),
        probe@ matches ProbeView::Present { resolved, .. } ==> (r@ is List || r@ is Read
            ==> starts_with(resolved, root@)),
{
    match probe {
        Probe::Absent => Route::Respond(Response::not_found()),
        Probe::Present { resolved, is_dir } => {
            let root_chars = chars_of(root);
            let resolved_chars = chars_of(resolved.as_str());
            if !path_starts_with(&resolved_chars, &root_chars) {
                Route::Respond(Response::forbidden())
            } else if is_dir {
                Route::List(resolved)
            } else {
                Route::Read(resolved)
            }
        },
    }
}

/// The answer for a directory: `200 OK` with its listing as an HTML page.
pub open spec fn directory_view(
    root: Seq<char>,
    dir: Seq<char>,
    children: Seq<ChildView>,
) -> ResponseView {
    ok_view(encode_utf8(page(dir, listing(root, dir, children))), Some("text/html"@))
}

/// The answer for the directory `dir`, given its children.
pub fn handle_directory(root: &str, dir: &str, children: &Vec<Child>) -> (r: Response)
    ensures
        r@ == directory_view(root@, dir@, child_views(children@)),
        well_formed(r@),
{
    let entries = list_entries(root, dir, children);
    let html = render_page(dir, &entries);
    Response::ok(html.as_str().as_bytes_vec(), Some("text/html"))
}

/// A request for the empty path, or for `/`, leads to the root. The root, once
/// it is found to be a directory, is listed: the answer is `200 OK`, and its
/// listing holds the children and no link to a parent.
pub proof fn lemma_root_is_listed(root: Seq<char>, resolved: Seq<char>, children: Seq<ChildView>)
    requires
        root.len() > 0,
        same_path(resolved, root),
    ensures
        same_path(candidate(root, Seq::<char>::empty()), root),
        same_path(candidate(root, seq!['/']), root),
        routed(root, (ProbeView::Present { resolved, is_dir: true })) == RouteView::List(resolved),
        directory_view(root, resolved, children).status_code == 200,
        listing(root, resolved, children) == child_entries(root, children),
{
    lemma_empty_path_is_root(root);
}

/// The answer for a file: `200 OK` with the contents as they are, the content
/// type that goes with the extension of the file's name, and the disposition
/// that goes with that type.
pub open spec fn file_view(file: Seq<char>, content: Seq<u8>) -> ResponseView {
    let name = file_name(file);
    let mime = mime_type(extension(name));
    let plain = ok_view(content, Some(mime));
    ResponseView {
        headers: plain.headers.push(("Content-Disposition"@, disposition(mime, name))),
        ..plain
    }
}

/// The answer for the file at path `file`, given its contents.
pub fn handle_file(file: &str, content: Vec<u8>) -> (r: Response)
    ensures
        r@ == file_view(file@, content@),
        well_formed(r@),
{
    let file_chars = chars_of(file);
    let name_chars = file_name_of(&file_chars);
    let extension_chars = extension_of(&name_chars);
    let name = string_of(&name_chars);
    let extension = string_of(&extension_chars);
    let mime = get_mime_type(extension.as_str());
    let mut response = Response::ok(content, Some(mime));
    let value = content_disposition(mime, name.as_str());
    response.add_header("Content-Disposition", value.as_str());
    response
}

} // verus!
