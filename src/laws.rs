//! Properties of request handling, proved over the contracts of the handler.

use vstd::prelude::*;
use vstd::string::*;
use vstd::utf8::*;

use crate::handler::{
    answers, decoded_route, index_target, is_not_found, request_route, Route, TargetKind,
};
use crate::path::{
    fold_segments, joined, lemma_split_nonempty, normalized, relative_part, root_segments,
    split_slash, step,
};
use crate::request::target_of;
use crate::response::{head_text, item_html, listing_html, listing_items, names_of, wire_bytes, Status};

verus! {

/// A segment that names a child: not empty, not `.` or `..`, and without `/`.
pub open spec fn plain_name(seg: Seq<char>) -> bool {
    &&& seg.len() > 0
    &&& seg != seq!['.']
    &&& seg != seq!['.', '.']
    &&& !seg.contains('/')
}

/// `p` is `root` followed by `/<name>` for zero or more plain names.
pub open spec fn within_root(root: Seq<char>, p: Seq<char>) -> bool {
    exists|segs: Seq<Seq<char>>|
        (forall|k: int| 0 <= k < segs.len() ==> plain_name(#[trigger] segs[k])) && p == joined(
            root,
            segs,
        )
}

/// `p` starts with `root`, and what follows, if anything, starts with `/`.
pub open spec fn has_root_prefix(root: Seq<char>, p: Seq<char>) -> bool {
    &&& p.len() >= root.len()
    &&& p.take(root.len() as int) == root
    &&& p.len() > root.len() ==> p[root.len() as int] == '/'
}

proof fn lemma_split_pieces_have_no_slash(s: Seq<char>)
    ensures
        forall|k: int|
            0 <= k < split_slash(s).len() ==> !(#[trigger] split_slash(s)[k]).contains('/'),
    decreases s.len(),
{
    if s.len() > 0 {
        let rest = split_slash(s.drop_last());
        lemma_split_pieces_have_no_slash(s.drop_last());
        lemma_split_nonempty(s.drop_last());
        assert(!rest[rest.len() - 1].contains('/'));
        if s.last() != '/' {
            let l = rest.last();
            assert forall|j: int| 0 <= j < l.push(s.last()).len() implies l.push(s.last())[j]
                != '/' by {
                if j < l.len() {
                    assert(l.push(s.last())[j] == l[j]);
                    assert(!l.contains('/'));
                    if l[j] == '/' {
                        assert(l.contains('/'));
                    }
                } else {
                    assert(l.push(s.last())[j] == s.last());
                }
            }
        }
        let sp = split_slash(s);
        assert forall|k: int| 0 <= k < sp.len() implies !(#[trigger] sp[k]).contains('/') by {
            if s.last() == '/' {
                if k < rest.len() {
                    assert(sp[k] == rest[k]);
                } else {
                    assert(sp[k] =~= Seq::<char>::empty());
                }
            } else if k < rest.len() - 1 {
                assert(sp[k] == rest[k]);
            } else {
                let l = rest.last();
                assert forall|j: int| 0 <= j < sp[k].len() implies sp[k][j] != '/' by {
                    assert(l.push(s.last())[j] != '/');
                }
            }
        }
    }
}

proof fn lemma_split_without_slash(s: Seq<char>)
    requires
        !s.contains('/'),
    ensures
        split_slash(s) == seq![s],
    decreases s.len(),
{
    if s.len() > 0 {
        assert(!s.drop_last().contains('/')) by {
            assert forall|j: int| 0 <= j < s.drop_last().len() implies s.drop_last()[j] != '/' by {
                assert(s.drop_last()[j] == s[j]);
            }
        }
        lemma_split_without_slash(s.drop_last());
        assert(s.last() != '/') by {
            assert(s[s.len() - 1] != '/');
        }
        assert(s.drop_last().push(s.last()) =~= s);
        assert(seq![s.drop_last()].update(0, s.drop_last().push(s.last())) =~= seq![s]);
    } else {
        assert(s =~= Seq::<char>::empty());
    }
}

proof fn lemma_fold_gives_plain_names(init: Seq<Seq<char>>, segs: Seq<Seq<char>>)
    requires
        forall|k: int| 0 <= k < init.len() ==> plain_name(#[trigger] init[k]),
        forall|k: int| 0 <= k < segs.len() ==> !(#[trigger] segs[k]).contains('/'),
    ensures
        forall|k: int|
            0 <= k < fold_segments(init, segs).len() ==> plain_name(
                #[trigger] fold_segments(init, segs)[k],
            ),
    decreases segs.len(),
{
    if segs.len() > 0 {
        let prefix = segs.drop_last();
        assert forall|k: int| 0 <= k < prefix.len() implies !(#[trigger] prefix[k]).contains('/') by {
            assert(prefix[k] == segs[k]);
        }
        lemma_fold_gives_plain_names(init, prefix);
        assert(!segs.last().contains('/')) by {
            assert(segs[segs.len() - 1] == segs.last());
        }
        let st = fold_segments(init, prefix);
        let st2 = step(st, segs.last());
        assert forall|k: int| 0 <= k < st2.len() implies plain_name(#[trigger] st2[k]) by {
            if k < st.len() {
                assert(st2[k] == st[k]);
            }
        }
    }
}

proof fn lemma_normalized_plain(root: Seq<char>, d: Seq<char>)
    ensures
        normalized(root, d) matches Some(segs) ==> forall|k: int|
            0 <= k < segs.len() ==> plain_name(#[trigger] segs[k]),
{
    let rel = relative_part(d);
    lemma_split_pieces_have_no_slash(root);
    lemma_fold_gives_plain_names(Seq::empty(), split_slash(root));
    let base = root_segments(root);
    lemma_split_pieces_have_no_slash(rel);
    lemma_fold_gives_plain_names(base, split_slash(rel));
    if let Some(segs) = normalized(root, d) {
        let full = fold_segments(base, split_slash(rel));
        assert forall|k: int| 0 <= k < segs.len() implies plain_name(#[trigger] segs[k]) by {
            assert(segs[k] == full[k + base.len()]);
        }
    }
}

proof fn lemma_joined_has_root_prefix(root: Seq<char>, segs: Seq<Seq<char>>)
    ensures
        has_root_prefix(root, joined(root, segs)),
    decreases segs.len(),
{
    if segs.len() == 0 {
        assert(root.take(root.len() as int) =~= root);
    } else {
        lemma_joined_has_root_prefix(root, segs.drop_last());
        let p = joined(root, segs.drop_last());
        let q = joined(root, segs);
        assert(q == p + seq!['/'] + segs.last());
        assert(q.len() >= p.len() + 1);
        assert(q.take(root.len() as int) =~= p.take(root.len() as int));
        if p.len() > root.len() {
            assert(q[root.len() as int] == p[root.len() as int]);
        } else {
            assert(q[root.len() as int] == '/');
        }
    }
}

/// Sandbox containment: whatever path a decoded target is routed to, index
/// route included, is the root followed by plain child names, so it starts
/// with the root and cannot climb above it.
pub proof fn law_routed_path_stays_in_root(d: Seq<char>, root: Seq<char>, r: Route)
    requires
        decoded_route(d, root, r),
    ensures
        r matches Route::Inspect(p) ==> within_root(root, p@) && has_root_prefix(root, p@),
        r matches Route::ServeIndex(p) ==> within_root(root, p@) && has_root_prefix(root, p@),
{
    if let Route::Inspect(p) = r {
        if d != index_target() {
            lemma_normalized_plain(root, d);
            let segs = normalized(root, d)->Some_0;
            lemma_joined_has_root_prefix(root, segs);
            assert(within_root(root, p@));
        }
    }
    if let Route::ServeIndex(p) = r {
        reveal_strlit("index.html");
        let segs = seq!["index.html"@];
        assert(plain_name(segs[0])) by {
            assert("index.html"@[0] != '.');
            assert(!"index.html"@.contains('/')) by {
                assert forall|j: int| 0 <= j < "index.html"@.len() implies "index.html"@[j] != '/' by {}
            }
        }
        lemma_joined_has_root_prefix(root, segs);
        assert(within_root(root, p@));
    }
}

/// A decoded target whose normalization leaves the root gets the 404
/// response, never file content.
pub proof fn law_escaping_target_is_not_found(d: Seq<char>, root: Seq<char>, r: Route)
    requires
        normalized(root, d) is None,
        decoded_route(d, root, r),
    ensures
        r matches Route::Respond(resp) && is_not_found(resp) && resp.status.code() == 404,
{
    if d == index_target() {
        reveal_strlit("/index.html");
        let rel = relative_part(d);
        assert(rel =~= "index.html"@) by {
            reveal_strlit("index.html");
        }
        reveal_strlit("index.html");
        assert(!rel.contains('/')) by {
            assert forall|j: int| 0 <= j < rel.len() implies rel[j] != '/' by {}
        }
        lemma_split_without_slash(rel);
        assert(seq![rel].drop_last() =~= Seq::<Seq<char>>::empty());
        assert(rel.len() == 10);
        assert(rel != seq!['.']);
        assert(rel != seq!['.', '.']);
        let base = root_segments(root);
        assert(fold_segments(base, Seq::<Seq<char>>::empty()) == base);
        assert(seq![rel].last() == rel);
        assert(fold_segments(base, seq![rel]) == step(fold_segments(base, seq![rel].drop_last()), rel));
        assert(fold_segments(base, seq![rel]) == step(base, rel));
        let full = base.push(rel);
        assert(full.take(base.len() as int) =~= base);
        assert(normalized(root, d) is Some);
    }
}

/// A request whose first line has no second token gets exactly the 400
/// response with body `Bad Request`.
pub proof fn law_missing_target_is_bad_request(text: Seq<char>, root: Seq<char>, r: Route)
    requires
        target_of(text) is None,
        request_route(text, root, r),
    ensures
        r matches Route::Respond(resp) && resp.status.code() == 400 && resp.wire() == wire_bytes(
            Status::BadRequest,
            "text/plain"@,
            encode_utf8("Bad Request"@),
        ),
{
}

/// A regular file is sent whole: status 200, Content-Length equal to its
/// byte count, and the body equal to its bytes.
pub proof fn law_file_sent_whole(
    path: Seq<char>,
    mime_type: String,
    content: Vec<u8>,
    r: crate::response::HttpResponse,
)
    requires
        answers(path, TargetKind::File { mime_type, content }, r),
    ensures
        r.status.code() == 200,
        r.body@ == content@,
        r.wire() == encode_utf8(head_text(Status::Success, mime_type@, content@.len())) + content@,
{
}

proof fn lemma_listing_items_concat(a: Seq<Seq<char>>, b: Seq<Seq<char>>)
    ensures
        listing_items(a + b) == listing_items(a) + listing_items(b),
    decreases b.len(),
{
    if b.len() == 0 {
        assert(a + b =~= a);
        assert(listing_items(b) =~= Seq::<char>::empty());
        assert(listing_items(a) + listing_items(b) =~= listing_items(a));
    } else {
        lemma_listing_items_concat(a, b.drop_last());
        assert((a + b).drop_last() =~= a + b.drop_last());
        assert((a + b).last() == b.last());
        assert(listing_items(a + b) =~= listing_items(a) + listing_items(b));
    }
}

/// A directory listing holds, for each entry, a link to `/<name>` labelled
/// with the name, and its items are exactly the entries' links in order.
pub proof fn law_listing_links_each_entry(dir: Seq<char>, names: Seq<Seq<char>>, i: int)
    requires
        0 <= i < names.len(),
    ensures
        exists|pre: Seq<char>, post: Seq<char>|
            listing_html(dir, names) == pre + item_html(names[i]) + post,
{
    let a = names.take(i);
    let b = names.skip(i + 1);
    assert(names =~= a + seq![names[i]] + b);
    lemma_listing_items_concat(a + seq![names[i]], b);
    lemma_listing_items_concat(a, seq![names[i]]);
    assert(seq![names[i]].drop_last() =~= Seq::<Seq<char>>::empty());
    assert(listing_items(Seq::<Seq<char>>::empty()) =~= Seq::<char>::empty());
    assert(listing_items(seq![names[i]]) == listing_items(Seq::<Seq<char>>::empty()) + item_html(
        names[i],
    ));
    assert(listing_items(seq![names[i]]) =~= item_html(names[i]));
    let head = "<!DOCTYPE html><html><head><meta charset=\"utf-8\"></head><body>"@
        + "<h1>Directory listing for "@ + dir + "</h1><ul>"@;
    let pre = head + listing_items(a);
    let post = listing_items(b) + "</ul></body></html>"@;
    assert(listing_html(dir, names) =~= pre + item_html(names[i]) + post);
}

/// The list items of a listing of `names`: one link per entry, in order.
pub open spec fn link_items(names: Seq<Seq<char>>) -> Seq<Seq<char>> {
    names.map_values(|n: Seq<char>| item_html(n))
}

proof fn lemma_listing_items_flatten(names: Seq<Seq<char>>)
    ensures
        listing_items(names) == link_items(names).flatten(),
    decreases names.len(),
{
    if names.len() == 0 {
        assert(link_items(names) =~= Seq::<Seq<char>>::empty());
    } else {
        lemma_listing_items_flatten(names.drop_last());
        assert(link_items(names) =~= link_items(names.drop_last()).push(item_html(names.last())));
        link_items(names.drop_last()).lemma_flatten_push(item_html(names.last()));
    }
}

/// The body of a directory listing is its heading, then exactly the list
/// items `link_items(names)` (the link `<li><a href="/n">n</a></li>` of each
/// entry `n`, one per entry and nothing else), then the closing tags.
pub proof fn law_listing_is_one_link_per_entry(dir: Seq<char>, names: Seq<Seq<char>>)
    ensures
        link_items(names).len() == names.len(),
        forall|i: int| 0 <= i < names.len() ==> #[trigger] link_items(names)[i] == item_html(names[i]),
        listing_html(dir, names) == "<!DOCTYPE html><html><head><meta charset=\"utf-8\"></head><body>"@
            + "<h1>Directory listing for "@ + dir + "</h1><ul>"@ + link_items(names).flatten()
            + "</ul></body></html>"@,
{
    lemma_listing_items_flatten(names);
}

/// Two routes that send the same bytes or inspect the same path.
pub open spec fn same_route(r1: Route, r2: Route) -> bool {
    match (r1, r2) {
        (Route::Respond(a), Route::Respond(b)) => a.wire() == b.wire(),
        (Route::ServeIndex(a), Route::ServeIndex(b)) => a@ == b@,
        (Route::Inspect(a), Route::Inspect(b)) => a@ == b@,
        _ => false,
    }
}

/// Two observations of the filesystem that agree on everything a response uses.
pub open spec fn same_kind(k1: TargetKind, k2: TargetKind) -> bool {
    match (k1, k2) {
        (
            TargetKind::File { mime_type: m1, content: c1 },
            TargetKind::File { mime_type: m2, content: c2 },
        ) => m1@ == m2@ && c1@ == c2@,
        (TargetKind::Directory { entries: e1 }, TargetKind::Directory { entries: e2 }) => names_of(
            e1@,
        ) == names_of(e2@),
        (TargetKind::Missing, TargetKind::Missing) => true,
        _ => false,
    }
}

/// The same request text against the same root is always routed the same way.
pub proof fn law_same_request_same_route(text: Seq<char>, root: Seq<char>, r1: Route, r2: Route)
    requires
        request_route(text, root, r1),
        request_route(text, root, r2),
    ensures
        same_route(r1, r2),
{
}

/// The same path holding the same thing gets byte-identical responses.
pub proof fn law_same_target_same_response(
    path: Seq<char>,
    k1: TargetKind,
    k2: TargetKind,
    r1: crate::response::HttpResponse,
    r2: crate::response::HttpResponse,
)
    requires
        same_kind(k1, k2),
        answers(path, k1, r1),
        answers(path, k2, r2),
    ensures
        r1.wire() == r2.wire(),
{
}

} // verus!
