//! The decisions of request handling: what a request line asks for, and the
//! response for what the filesystem holds at the resolved path.

use vstd::prelude::*;
use vstd::string::*;
use vstd::utf8::*;

use crate::mime::{content_type_of, content_type_spec};
use crate::path::{
    escapes_well_formed, has_valid_escapes, joined, normalized, percent_decode, percent_decoded,
    resolve_decoded,
};
use crate::request::{request_target, target_of};
use crate::response::{listing_html, names_of, HttpResponse, Status};

verus! {

/// What to do next with a request.
pub enum Route {
    /// Send this response now.
    Respond(HttpResponse),
    /// Send the file at this path as HTML, or 404 when it does not exist.
    ServeIndex(String),
    /// Look at what the filesystem holds at this path and answer accordingly.
    Inspect(String),
}

/// What the filesystem holds at a resolved path.
pub enum TargetKind {
    File { mime_type: String, content: Vec<u8> },
    Directory { entries: Vec<String> },
    Missing,
}

/// The fixed 400 response.
pub open spec fn is_bad_request(r: HttpResponse) -> bool {
    &&& r.status == Status::BadRequest
    &&& r.content_type@ == "text/plain"@
    &&& r.body@ == encode_utf8("Bad Request"@)
}

/// The fixed 404 response.
pub open spec fn is_not_found(r: HttpResponse) -> bool {
    &&& r.status == Status::NotFound
    &&& r.content_type@ == "text/plain"@
    &&& r.body@ == encode_utf8("404 Not Found"@)
}

/// The decoded target of the distinguished index route.
pub open spec fn index_target() -> Seq<char> {
    "/index.html"@
}

/// Where the index route's file lies under `root`.
pub open spec fn index_path(root: Seq<char>) -> Seq<char> {
    joined(root, seq!["index.html"@])
}

/// The route for an already decoded target.
pub open spec fn decoded_route(d: Seq<char>, root: Seq<char>, r: Route) -> bool {
    if d == index_target() {
        r is ServeIndex && r->ServeIndex_0@ == index_path(root)
    } else {
        match normalized(root, d) {
            Some(segs) => r is Inspect && r->Inspect_0@ == joined(root, segs),
            None => r is Respond && is_not_found(r->Respond_0),
        }
    }
}

/// The route for a whole request text.
pub open spec fn request_route(text: Seq<char>, root: Seq<char>, r: Route) -> bool {
    match target_of(text) {
        None => r is Respond && is_bad_request(r->Respond_0),
        Some(t) => if !escapes_well_formed(t) {
            r is Respond && is_bad_request(r->Respond_0)
        } else {
            decoded_route(percent_decoded(t), root, r)
        },
    }
}

/// The response owed for what lies at `path`.
pub open spec fn answers(path: Seq<char>, kind: TargetKind, r: HttpResponse) -> bool {
    match kind {
        TargetKind::File { mime_type, content } => {
            &&& r.status == Status::Success
            &&& r.content_type@ == mime_type@
            &&& r.body@ == content@
        },
        TargetKind::Directory { entries } => {
            &&& r.status == Status::Success
            &&& r.content_type@ == "text/html"@
            &&& r.body@ == encode_utf8(listing_html(path, names_of(entries@)))
        },
        TargetKind::Missing => is_not_found(r),
    }
}

/// Routes an already decoded target: the index route, a path under the
/// root to inspect, or 404 for a path outside the root.
pub fn route_decoded(decoded: &str, root: &str) -> (r: Route)
    ensures
        decoded_route(decoded@, root@, r),
{
    let d = String::from_str(decoded);
    let index = String::from_str("/index.html");
    if d == index {
        let mut path = String::from_str(root);
        path.append("/index.html");
        proof {
            reveal_strlit("/index.html");
            reveal_strlit("index.html");
            let s = seq!["index.html"@];
            assert(s.drop_last() =~= Seq::<Seq<char>>::empty());
            assert(joined(root@, s.drop_last()) == root@);
            assert(index_path(root@) == root@ + seq!['/'] + "index.html"@);
            assert(path@ =~= index_path(root@));
        }
        Route::ServeIndex(path)
    } else {
        match resolve_decoded(decoded, root) {
            Ok(p) => Route::Inspect(p),
            Err(_) => Route::Respond(HttpResponse::not_found()),
        }
    }
}

/// Routes a raw request text: 400 when the first line has no target or the
/// target has a malformed escape; otherwise the decoded target's route.
pub fn route_request(text: &str, root: &str) -> (r: Route)
    ensures
        request_route(text@, root@, r),
{
    match request_target(text) {
        None => Route::Respond(HttpResponse::bad_request()),
        Some(t) => {
            if !has_valid_escapes(t) {
                Route::Respond(HttpResponse::bad_request())
            } else {
                let decoded = percent_decode(t);
                route_decoded(decoded.as_str(), root)
            }
        },
    }
}

/// The answer of the index route: the file's text as HTML, or 404 when the
/// file does not exist.
pub fn index_response(content: Option<String>) -> (r: HttpResponse)
    ensures
        match content {
            Some(c) => r.status == Status::Success && r.content_type@ == "text/html"@ && r.body@
                == encode_utf8(c@),
            None => is_not_found(r),
        },
{
    match content {
        Some(c) => HttpResponse::html_file(c.as_str()),
        None => HttpResponse::not_found(),
    }
}

/// Classifies a regular file by its bytes, which it keeps.
pub fn classify_file(content: Vec<u8>) -> (r: TargetKind)
    ensures
        r matches TargetKind::File { mime_type, content: c } && c@ == content@ && mime_type@
            == content_type_spec(content@),
{
    let mime_type = content_type_of(content.as_slice());
    TargetKind::File { mime_type, content }
}

/// The response for what lies at `path`: the file's bytes, a listing of the
/// directory, or 404.
pub fn target_response(path: &str, kind: TargetKind) -> (r: HttpResponse)
    ensures
        answers(path@, kind, r),
{
    match kind {
        TargetKind::File { mime_type, content } => HttpResponse::file(content, mime_type),
        TargetKind::Directory { entries } => HttpResponse::directory_listing(path, &entries),
        TargetKind::Missing => HttpResponse::not_found(),
    }
}

} // verus!
