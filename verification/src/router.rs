//! Route dispatch: each request path is mapped to one of the three served
//! behaviors — the index page, the one generic map page, or the delegated
//! asset lookup — and every other path is not found. Dispatch reads nothing
//! but the path and never changes the precomputed state.

use vstd::prelude::*;

use crate::listing::{dir_names, fragment_of, lemma_rows_of_contains, row_of, MapEntry};
use crate::pages::Views;
use crate::render::{
    first_match_from, has_match, is_match_at_exec, lemma_first_match_from_props, match_at,
    placeholder, render_spec, spliced,
};

verus! {

/// The routing decision for one request path, as a value.
pub enum RouteModel {
    Index,
    MapPage,
    Asset(Seq<char>),
    NotFound,
}

/// The routing decision dispatch returns; `Asset` carries the path under
/// the asset root that the file-serving collaborator receives.
pub enum Route {
    Index,
    MapPage,
    Asset(String),
    NotFound,
}

impl Route {
    /// The decision this route stands for.
    pub open spec fn model(&self) -> RouteModel {
        match self {
            Route::Index => RouteModel::Index,
            Route::MapPage => RouteModel::MapPage,
            Route::Asset(rel) => RouteModel::Asset(rel@),
            Route::NotFound => RouteModel::NotFound,
        }
    }
}

/// A map-page path: `/map/` followed by one identifier segment — any text
/// without a further `/`, the empty text included. The identifier is
/// deliberately never checked against the discovered maps.
pub open spec fn is_map_path(p: Seq<char>) -> bool {
    &&& p.len() >= "/map/"@.len()
    &&& match_at(p, "/map/"@, 0)
    &&& forall|i: int| "/map/"@.len() <= i < p.len() ==> p[i] != '/'
}

/// An asset path: `/assets/` followed by the path under the asset root.
pub open spec fn is_asset_path(p: Seq<char>) -> bool {
    match_at(p, "/assets/"@, 0)
}

/// The part of an asset path under the asset root.
pub open spec fn asset_suffix(p: Seq<char>) -> Seq<char> {
    p.subrange("/assets/"@.len() as int, p.len() as int)
}

/// The routing decision for a path.
pub open spec fn route_of(p: Seq<char>) -> RouteModel {
    if p == "/"@ {
        RouteModel::Index
    } else if is_map_path(p) {
        RouteModel::MapPage
    } else if is_asset_path(p) {
        RouteModel::Asset(asset_suffix(p))
    } else {
        RouteModel::NotFound
    }
}

/// A path cannot begin with both route prefixes.
proof fn lemma_prefixes_disjoint(p: Seq<char>)
    ensures
        !(match_at(p, "/map/"@, 0) && match_at(p, "/assets/"@, 0)),
{
    reveal_strlit("/map/");
    reveal_strlit("/assets/");
    if match_at(p, "/map/"@, 0) && match_at(p, "/assets/"@, 0) {
        assert(p.subrange(0, 5)[1] == p[1]);
        assert(p.subrange(0, 8)[1] == p[1]);
    }
}

/// Map the request path to its route. The decision looks at the path
/// alone: `/` is the index, `/map/{id}` is the map page whatever `{id}`
/// holds, `/assets/...` is handed on to the file-serving collaborator, and
/// anything else is not found.
pub fn dispatch(path: &str) -> (r: Route)
    ensures
        r.model() == route_of(path@),
{
    let n = path.unicode_len();
    if n == 1 && path.get_char(0) == '/' {
        proof {
            reveal_strlit("/");
            assert(path@ =~= "/"@);
        }
        return Route::Index;
    }
    proof {
        reveal_strlit("/");
    }
    let map_prefix = "/map/";
    let mp_len = map_prefix.unicode_len();
    let asset_prefix = "/assets/";
    let ap_len = asset_prefix.unicode_len();
    proof {
        reveal_strlit("/map/");
        reveal_strlit("/assets/");
    }
    if mp_len <= n && is_match_at_exec(path, map_prefix, 0, n, mp_len) {
        let mut i = mp_len;
        while i < n
            invariant
                mp_len <= i <= n,
                n == path@.len(),
                mp_len == "/map/"@.len(),
                match_at(path@, "/map/"@, 0),
                forall|q: int| mp_len <= q < i ==> path@[q] != '/',
            decreases n - i,
        {
            if path.get_char(i) == '/' {
                proof {
                    reveal_strlit("/");
                    reveal_strlit("/map/");
                    assert(!is_map_path(path@));
                    assert(path@.len() != 1);
                    lemma_prefixes_disjoint(path@);
                }
                return Route::NotFound;
            }
            i += 1;
        }
        proof {
            reveal_strlit("/map/");
            assert(is_map_path(path@));
            assert(path@.len() != 1);
        }
        return Route::MapPage;
    }
    if ap_len <= n && is_match_at_exec(path, asset_prefix, 0, n, ap_len) {
        let rel = path.substring_char(ap_len, n);
        proof {
            reveal_strlit("/assets/");
            assert(path@.len() != 1);
            lemma_prefixes_disjoint(path@);
            assert(!is_map_path(path@));
        }
        return Route::Asset(rel.to_owned());
    }
    proof {
        reveal_strlit("/map/");
        reveal_strlit("/assets/");
        assert(!is_map_path(path@));
        assert(!is_asset_path(path@));
        assert(path@ != "/"@);
    }
    Route::NotFound
}

/// What one request is answered with, as a value.
pub enum ReplyModel {
    Html(Seq<char>),
    Asset(Seq<char>),
    NotFound,
}

/// The answer to one request: a precomputed HTML document with status 200,
/// a lookup delegated to the file-serving collaborator, or status 404.
pub enum Reply {
    Html(String),
    Asset(String),
    NotFound,
}

impl Reply {
    /// The answer this reply stands for.
    pub open spec fn model(&self) -> ReplyModel {
        match self {
            Reply::Html(body) => ReplyModel::Html(body@),
            Reply::Asset(rel) => ReplyModel::Asset(rel@),
            Reply::NotFound => ReplyModel::NotFound,
        }
    }

    /// The HTTP status this reply carries; an asset reply's status is the
    /// collaborator's to decide — the file's bytes with 200, or 404.
    pub fn status(&self) -> (s: Option<u16>)
        ensures
            self is Html ==> s == Some(200u16),
            self is NotFound ==> s == Some(404u16),
            self is Asset ==> s is None,
    {
        match self {
            Reply::Html(_) => Some(200),
            Reply::Asset(_) => None,
            Reply::NotFound => Some(404),
        }
    }
}

/// The answer owed for a path, given the two precomputed documents.
pub open spec fn reply_of(index: Seq<char>, map: Seq<char>, p: Seq<char>) -> ReplyModel {
    match route_of(p) {
        RouteModel::Index => ReplyModel::Html(index),
        RouteModel::MapPage => ReplyModel::Html(map),
        RouteModel::Asset(rel) => ReplyModel::Asset(rel),
        RouteModel::NotFound => ReplyModel::NotFound,
    }
}

/// Answer one request from the precomputed state: the index document for
/// `/`, the one map document for every map path, the delegated lookup for
/// asset paths, and not-found for everything else. Only the path is
/// consulted; the state is shared read-only and never changed.
pub fn respond(views: &Views, path: &str) -> (r: Reply)
    ensures
        r.model() == reply_of(views.index@, views.map@, path@),
{
    match dispatch(path) {
        Route::Index => Reply::Html(views.index.clone()),
        Route::MapPage => Reply::Html(views.map.clone()),
        Route::Asset(rel) => Reply::Asset(rel),
        Route::NotFound => Reply::NotFound,
    }
}

/// Law: every map-page request is answered with the same document, the
/// precomputed map page — whatever identifier the path carries, known to
/// the listing or not.
pub proof fn lemma_map_replies_identical(
    index: Seq<char>,
    map: Seq<char>,
    p1: Seq<char>,
    p2: Seq<char>,
)
    requires
        is_map_path(p1),
        is_map_path(p2),
    ensures
        reply_of(index, map, p1) == reply_of(index, map, p2),
        reply_of(index, map, p1) == ReplyModel::Html(map),
{
    reveal_strlit("/");
    reveal_strlit("/map/");
    assert(p1.len() != 1);
    assert(p2.len() != 1);
}

/// Law: the answer to `/` is the assembled index page, and when the index
/// template held the placeholder, that page carries — whole, somewhere in
/// its text — one table-row link for each subdirectory the scan found.
pub proof fn lemma_index_reply_lists_each_map(
    t: Seq<char>,
    entries: Seq<MapEntry>,
    map_doc: Seq<char>,
    k: int,
)
    requires
        has_match(t, placeholder()),
        0 <= k < dir_names(entries).len(),
    ensures
        reply_of(render_spec(t, placeholder(), fragment_of(entries)), map_doc, "/"@)
            == ReplyModel::Html(render_spec(t, placeholder(), fragment_of(entries))),
        exists|off: int|
            0 <= off && off + row_of(dir_names(entries)[k]).len() <= render_spec(
                t,
                placeholder(),
                fragment_of(entries),
            ).len() && #[trigger] render_spec(t, placeholder(), fragment_of(entries)).subrange(
                off,
                off + row_of(dir_names(entries)[k]).len() as int,
            ) == row_of(dir_names(entries)[k]),
{
    let ph = placeholder();
    let frag = fragment_of(entries);
    let body = render_spec(t, ph, frag);
    reveal_strlit("{{maps}}");
    lemma_first_match_from_props(t, ph, 0);
    let fm = first_match_from(t, ph, 0);
    if fm == -1 {
        let w = choose|i: int| match_at(t, ph, i);
        assert(!match_at(t, ph, w));
    }
    assert(match_at(t, ph, fm));
    assert(body == spliced(t, ph, frag, fm));
    let row = row_of(dir_names(entries)[k]);
    lemma_rows_of_contains(dir_names(entries), k);
    let off0 = choose|off: int|
        0 <= off && off + row.len() <= frag.len() && #[trigger] frag.subrange(
            off,
            off + row.len() as int,
        ) == row;
    let off = fm + off0;
    assert(body.subrange(off, off + row.len() as int) =~= frag.subrange(
        off0,
        off0 + row.len() as int,
    ));
}

} // verus!
