//! The static file server: the response for a file, and the listing of a
//! directory.

use vstd::prelude::*;
use vstd::string::StringSliceAdditionalSpecFns;
use crate::bytes::{append, to_vec, strings_of};
use crate::error::ErrorKind;
use crate::decimal::decimal;
use crate::headers::lookup;
use crate::mime::{content_type, content_type_of, mime_type, lemma_mime_type_fits};
use crate::reader::{fits_wire, lemma_response_with_fits, lemma_html_type_fits};
use crate::path::{ResolvedPath, ResolvedPathView, relative, tail_len, lemma_tail_len, count_tail,
    extension};
use crate::request::SLASH;
use crate::response::{Response, ResponseView, response_with, html_type, content_type_name,
    content_length_name, wire, lemma_body_is_described};

verus! {

/// The directory above `rel`, a path without a leading slash: `rel`
/// without its last component. What has one component, or none, lies right
/// below the root, which the empty path stands for.
pub open spec fn parent_of(rel: Seq<u8>) -> Seq<u8> {
    let k = tail_len(rel, SLASH);
    if k < rel.len() {
        rel.take(rel.len() - k - 1)
    } else {
        Seq::empty()
    }
}

/// The entry `name` of the directory `rel`.
pub open spec fn child_of(rel: Seq<u8>, name: Seq<u8>) -> Seq<u8> {
    if rel.len() == 0 {
        name
    } else {
        rel + seq![SLASH] + name
    }
}

/// One item of a listing: a link to the path `rel` below the root, shown
/// as `label`.
pub open spec fn link(rel: Seq<u8>, label: Seq<u8>) -> Seq<u8> {
    "<li><a href=\"/".spec_bytes() + rel + "\">".spec_bytes() + label + "</a></li>".spec_bytes()
}

/// The items for the entries `names` of the directory `rel`, in order.
pub open spec fn entry_links(rel: Seq<u8>, names: Seq<Seq<u8>>) -> Seq<u8>
    decreases names.len(),
{
    if names.len() == 0 {
        Seq::empty()
    } else {
        link(child_of(rel, names[0]), names[0]) + entry_links(rel, names.skip(1))
    }
}

/// The page that lists the directory `rel`: a heading, a link to the
/// directory above, shown as `..`, and a link for each entry, in the order
/// in which the entries were read.
pub open spec fn listing(rel: Seq<u8>, names: Seq<Seq<u8>>) -> Seq<u8> {
    "<html><h1>Directory listing</h1><ul>".spec_bytes() + link(
        parent_of(rel),
        "..".spec_bytes(),
    ) + entry_links(rel, names) + "</ul></html>".spec_bytes()
}

/// Appends one item of a listing to `out`.
fn push_link(out: &mut Vec<u8>, rel: &[u8], label: &[u8])
    ensures
        final(out)@ == old(out)@ + link(rel@, label@),
{
    append(out, "<li><a href=\"/".as_bytes());
    append(out, rel);
    append(out, "\">".as_bytes());
    append(out, label);
    append(out, "</a></li>".as_bytes());
    assert(out@ =~= old(out)@ + link(rel@, label@));
}

/// Writes the page that lists the directory `rel` with the entries `names`.
pub fn render_listing(rel: &[u8], names: &Vec<Vec<u8>>) -> (r: Vec<u8>)
    ensures
        r@ == listing(rel@, strings_of(names@)),
{
    let head = "<html><h1>Directory listing</h1><ul>";
    let mut out: Vec<u8> = to_vec(head.as_bytes());
    let k: usize = count_tail(rel, SLASH);
    proof {
        lemma_tail_len(rel@, SLASH);
    }
    if k < rel.len() {
        let parent = vstd::slice::slice_subrange(rel, 0, rel.len() - k - 1);
        assert(parent@ =~= parent_of(rel@));
        push_link(&mut out, parent, "..".as_bytes());
    } else {
        let parent = vstd::slice::slice_subrange(rel, 0, 0);
        assert(parent@ =~= parent_of(rel@));
        push_link(&mut out, parent, "..".as_bytes());
    }
    let ghost start = out@;
    let ghost all = strings_of(names@);
    let mut i: usize = 0;
    assert(all.skip(0) =~= all);
    assert(out@ + entry_links(rel@, all) =~= start + entry_links(rel@, all));
    while i < names.len()
        invariant
            i <= names.len(),
            all == strings_of(names@),
            out@ + entry_links(rel@, all.skip(i as int)) == start + entry_links(rel@, all),
        decreases names.len() - i,
    {
        let ghost cur = all.skip(i as int);
        let ghost before = out@;
        assert(cur[0] == names@[i as int]@);
        assert(cur.skip(1) =~= all.skip(i + 1));
        let name = names[i].as_slice();
        if rel.len() == 0 {
            push_link(&mut out, name, name);
        } else {
            let mut child: Vec<u8> = to_vec(rel);
            child.push(SLASH);
            append(&mut child, name);
            assert(child@ =~= child_of(rel@, name@));
            push_link(&mut out, child.as_slice(), name);
        }
        assert(out@ + entry_links(rel@, cur.skip(1)) =~= before + entry_links(rel@, cur));
        i += 1;
    }
    assert(entry_links(rel@, all.skip(i as int)) =~= Seq::<u8>::empty());
    append(&mut out, "</ul></html>".as_bytes());
    assert(out@ =~= listing(rel@, all));
    out
}

/// What reading the file system at a resolved path gave.
#[derive(Debug, PartialEq, Eq)]
pub enum Loaded {
    /// The path names a regular file; these are its contents.
    Contents(Vec<u8>),
    /// The path names a directory; these are the names of its entries, in
    /// the order of one reading.
    Entries(Vec<Vec<u8>>),
    /// Nothing that can be served exists at the path.
    Missing,
    /// The file or directory exists and could not be read.
    Unreadable,
}

/// What serving the resolved path `path` comes to. A file gives 200 with
/// its contents, the content type of its extension and its length; a
/// directory gives 200 with its listing; what is missing is not found;
/// what cannot be read is forbidden.
pub open spec fn served(path: ResolvedPathView, loaded: Loaded) -> Result<ResponseView, ErrorKind> {
    match loaded {
        Loaded::Contents(bytes) => Ok(
            response_with(200, content_type_of(path.resolved), Seq::empty(), bytes@),
        ),
        Loaded::Entries(names) => Ok(
            response_with(
                200,
                html_type(),
                Seq::empty(),
                listing(relative(path.root, path.resolved), strings_of(names@)),
            ),
        ),
        Loaded::Missing => Err(ErrorKind::NotFound),
        Loaded::Unreadable => Err(ErrorKind::Forbidden),
    }
}

/// Builds the response that serves the file at `path` with `contents`.
pub fn file_response(path: &ResolvedPath, contents: Vec<u8>) -> (r: Response)
    ensures
        r@ == response_with(200, content_type_of(path@.resolved), Seq::empty(), contents@),
{
    let kind = content_type(path.resolved());
    Response::with_body(200, to_vec(kind.as_bytes()), Vec::new(), contents)
}

/// Serves the resolved path `path`, given what was read there.
pub fn serve(path: &ResolvedPath, loaded: Loaded) -> (r: Result<Response, ErrorKind>)
    ensures
        match r {
            Ok(resp) => served(path@, loaded) == Ok::<ResponseView, ErrorKind>(resp@),
            Err(e) => served(path@, loaded) == Err::<ResponseView, ErrorKind>(e),
        },
{
    match loaded {
        Loaded::Contents(bytes) => Ok(file_response(path, bytes)),
        Loaded::Entries(names) => {
            let body = render_listing(path.relative(), &names);
            Ok(
                Response::with_body(
                    200,
                    to_vec("text/html; charset=utf-8".as_bytes()),
                    Vec::new(),
                    body,
                ),
            )
        },
        Loaded::Missing => Err(ErrorKind::NotFound),
        Loaded::Unreadable => Err(ErrorKind::Forbidden),
    }
}

/// A file is served with the content type that the table gives for its
/// extension, with its contents as body, and with their length.
pub proof fn lemma_file_is_served_as_listed(path: ResolvedPathView, contents: Vec<u8>)
    ensures
        served(path, Loaded::Contents(contents)) matches Ok(r) && r.status_code == 200 && r.body
            == contents@ && lookup(r.headers, content_type_name()) == Some(
            mime_type(extension(path.resolved)),
        ) && lookup(r.headers, content_length_name()) == Some(decimal(contents@.len())),
{
    lemma_body_is_described(200, content_type_of(path.resolved), Seq::empty(), contents@);
}

/// Serving the same file with the same contents twice gives the same
/// response, and the same bytes on the wire.
pub proof fn lemma_serving_repeats(path: ResolvedPathView, first: Vec<u8>, second: Vec<u8>)
    requires
        first@ == second@,
    ensures
        served(path, Loaded::Contents(first)) == served(path, Loaded::Contents(second)),
        served(path, Loaded::Contents(first)) matches Ok(r) && served(
            path,
            Loaded::Contents(second),
        ) matches Ok(s) && wire(r) == wire(s) && r.body == s.body,
{
}

/// Every response that serves a file or a directory can be read back from
/// its wire form, whatever the file holds and whatever the entries are
/// called.
pub proof fn lemma_served_fits(path: ResolvedPathView, loaded: Loaded)
    ensures
        served(path, loaded) matches Ok(r) ==> fits_wire(r),
{
    match loaded {
        Loaded::Contents(bytes) => {
            lemma_mime_type_fits(extension(path.resolved));
            lemma_response_with_fits(200, content_type_of(path.resolved), Seq::empty(), bytes@);
        },
        Loaded::Entries(names) => {
            lemma_html_type_fits();
            lemma_response_with_fits(
                200,
                html_type(),
                Seq::empty(),
                listing(relative(path.root, path.resolved), strings_of(names@)),
            );
        },
        _ => {},
    }
}

} // verus!
