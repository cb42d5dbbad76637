use mapsite::listing::{build_map_listing_fragment, MapEntry};

fn entry(name: &str, is_dir: bool) -> MapEntry {
    MapEntry { name: name.to_string(), is_dir }
}

#[test]
fn one_row_per_subdirectory() {
    let entries = vec![entry("alpha", true), entry("notes.txt", false), entry("beta", true)];
    let fragment = build_map_listing_fragment(&entries);
    assert_eq!(
        fragment,
        "<tr><td><a href='/map/alpha'>alpha</a></td></tr>\
         <tr><td><a href='/map/beta'>beta</a></td></tr>"
    );
}

#[test]
fn non_directories_contribute_nothing() {
    let entries = vec![entry("a.png", false), entry("b.png", false)];
    assert_eq!(build_map_listing_fragment(&entries), "");
}

#[test]
fn empty_scan_gives_empty_fragment() {
    let entries: Vec<MapEntry> = Vec::new();
    assert_eq!(build_map_listing_fragment(&entries), "");
}

#[test]
fn scan_order_is_kept() {
    let entries = vec![entry("beta", true), entry("alpha", true)];
    let fragment = build_map_listing_fragment(&entries);
    assert_eq!(
        fragment,
        "<tr><td><a href='/map/beta'>beta</a></td></tr>\
         <tr><td><a href='/map/alpha'>alpha</a></td></tr>"
    );
}
