use mapsite::pages::Views;
use mapsite::router::{dispatch, respond, Reply, Route};

fn views() -> Views {
    Views { index: "INDEX DOCUMENT".to_string(), map: "MAP DOCUMENT".to_string() }
}

#[test]
fn root_routes_to_index() {
    assert!(matches!(dispatch("/"), Route::Index));
}

#[test]
fn any_map_id_routes_to_map_page() {
    assert!(matches!(dispatch("/map/anything-at-all"), Route::MapPage));
    assert!(matches!(dispatch("/map/"), Route::MapPage));
    assert!(matches!(dispatch("/map/alpha"), Route::MapPage));
    assert!(matches!(dispatch("/map/no-such-map"), Route::MapPage));
}

#[test]
fn asset_paths_delegate_with_their_suffix() {
    match dispatch("/assets/does-not-exist.png") {
        Route::Asset(rel) => assert_eq!(rel, "does-not-exist.png"),
        _ => panic!("expected an asset route"),
    }
    match dispatch("/assets/maps/alpha/tile.png") {
        Route::Asset(rel) => assert_eq!(rel, "maps/alpha/tile.png"),
        _ => panic!("expected an asset route"),
    }
}

#[test]
fn unmatched_paths_are_not_found() {
    assert!(matches!(dispatch(""), Route::NotFound));
    assert!(matches!(dispatch("/map"), Route::NotFound));
    assert!(matches!(dispatch("/map/a/b"), Route::NotFound));
    assert!(matches!(dispatch("/assets"), Route::NotFound));
    assert!(matches!(dispatch("/other"), Route::NotFound));
    assert!(matches!(dispatch("//"), Route::NotFound));
}

#[test]
fn map_requests_share_one_body() {
    let views = views();
    let first = match respond(&views, "/map/anything-at-all") {
        Reply::Html(body) => body,
        _ => panic!("expected a page"),
    };
    let second = match respond(&views, "/map/") {
        Reply::Html(body) => body,
        _ => panic!("expected a page"),
    };
    assert_eq!(first, second);
    assert_eq!(first, "MAP DOCUMENT");
}

#[test]
fn root_reply_is_the_index_document() {
    let views = views();
    match respond(&views, "/") {
        Reply::Html(body) => assert_eq!(body, "INDEX DOCUMENT"),
        _ => panic!("expected a page"),
    }
}

#[test]
fn statuses_follow_the_route() {
    let views = views();
    assert_eq!(respond(&views, "/").status(), Some(200));
    assert_eq!(respond(&views, "/map/x").status(), Some(200));
    assert_eq!(respond(&views, "/nope").status(), Some(404));
    assert_eq!(respond(&views, "/assets/f.png").status(), None);
}
