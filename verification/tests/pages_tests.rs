use mapsite::listing::MapEntry;
use mapsite::pages::{assemble, assemble_startup, StartupError};
use mapsite::router::{respond, Reply};

fn entry(name: &str, is_dir: bool) -> MapEntry {
    MapEntry { name: name.to_string(), is_dir }
}

#[test]
fn startup_scenario_renders_index() {
    let scan = Some(vec![entry("alpha", true), entry("beta", true)]);
    let views = assemble("<html>{{maps}}</html>", "<html>map</html>", &scan);
    assert_eq!(
        views.index,
        "<html><tr><td><a href='/map/alpha'>alpha</a></td></tr>\
         <tr><td><a href='/map/beta'>beta</a></td></tr></html>"
    );
    assert_eq!(views.map, "<html>map</html>");
}

#[test]
fn index_reply_links_each_discovered_map() {
    let scan = Some(vec![entry("alpha", true), entry("readme.txt", false), entry("beta", true)]);
    let views = assemble("<html><table>{{maps}}</table></html>", "map page", &scan);
    let body = match respond(&views, "/") {
        Reply::Html(body) => body,
        _ => panic!("expected a page"),
    };
    assert!(body.contains("<tr><td><a href='/map/alpha'>alpha</a></td></tr>"));
    assert!(body.contains("<tr><td><a href='/map/beta'>beta</a></td></tr>"));
    assert_eq!(body.matches("<a href='/map/alpha'").count(), 1);
    assert_eq!(body.matches("<a href='/map/beta'").count(), 1);
    assert_eq!(body.matches("<a href='/map/").count(), 2);
}

#[test]
fn missing_template_is_fatal() {
    let index_missing = assemble_startup(&None, &Some("map".to_string()), &None);
    assert!(matches!(index_missing, Err(StartupError::IndexTemplateUnreadable)));
    let map_missing = assemble_startup(&Some("index".to_string()), &None, &None);
    assert!(matches!(map_missing, Err(StartupError::MapTemplateUnreadable)));
    let both_missing = assemble_startup(&None, &None, &None);
    assert!(matches!(both_missing, Err(StartupError::IndexTemplateUnreadable)));
}

#[test]
fn missing_maps_directory_degrades_to_empty_listing() {
    let views = assemble_startup(
        &Some("<p>{{maps}}</p>".to_string()),
        &Some("map".to_string()),
        &None,
    )
    .unwrap();
    assert_eq!(views.index, "<p></p>");
    assert_eq!(views.map, "map");
}

#[test]
fn empty_maps_directory_degrades_the_same_way() {
    let views = assemble_startup(
        &Some("<p>{{maps}}</p>".to_string()),
        &Some("map".to_string()),
        &Some(Vec::new()),
    )
    .unwrap();
    assert_eq!(views.index, "<p></p>");
}
