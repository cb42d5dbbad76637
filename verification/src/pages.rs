//! Page assembly: both documents are rendered once, before any request is
//! answered, and are never written again. A template that could not be read
//! is fatal at startup; a maps directory that could not be scanned only
//! degrades the listing to nothing.

use vstd::prelude::*;

use crate::listing::{build_map_listing_fragment, fragment_of, MapEntry};
use crate::render::{placeholder, render_index, render_spec};

verus! {

/// The two documents rendered at startup and served unchanged, read-only,
/// for the whole life of the process.
pub struct Views {
    pub index: String,
    pub map: String,
}

/// The scan of the maps directory as a value: `None` where the directory
/// was missing or unreadable, otherwise its immediate children.
pub open spec fn scan_view(scan: &Option<Vec<MapEntry>>) -> Option<Seq<MapEntry>> {
    match scan {
        Option::None => Option::None,
        Option::Some(entries) => Option::Some(entries@),
    }
}

/// The fragment a scan yields: a failed or missing scan degrades to the
/// empty fragment, a successful one lists its entries.
pub open spec fn scan_fragment(scan: Option<Seq<MapEntry>>) -> Seq<char> {
    match scan {
        Option::None => Seq::empty(),
        Option::Some(entries) => fragment_of(entries),
    }
}

/// Why startup must stop: a template could not be read. A failed directory
/// scan is deliberately absent here — it degrades instead of failing.
#[derive(Debug)]
pub enum StartupError {
    IndexTemplateUnreadable,
    MapTemplateUnreadable,
}

/// Assemble both pages from the templates and the scan: the index template
/// with the listing fragment substituted for its placeholder, and the map
/// template exactly as it stands.
pub fn assemble(index_template: &str, map_template: &str, scan: &Option<Vec<MapEntry>>) -> (v:
    Views)
    ensures
        v.index@ == render_spec(index_template@, placeholder(), scan_fragment(scan_view(scan))),
        v.map@ == map_template@,
{
    let fragment = match scan {
        Option::None => String::new(),
        Option::Some(entries) => build_map_listing_fragment(entries),
    };
    Views { index: render_index(index_template, fragment.as_str()), map: map_template.to_owned() }
}

/// The whole startup policy over plain values: a template that could not be
/// read (`None`) is fatal — the matching error comes back, the index one
/// first, and no pages are built; a failed scan is not — the listing
/// degrades to the empty fragment and assembly proceeds.
pub fn assemble_startup(
    index_template: &Option<String>,
    map_template: &Option<String>,
    scan: &Option<Vec<MapEntry>>,
) -> (r: Result<Views, StartupError>)
    ensures
        r is Err <==> (index_template is None || map_template is None),
        index_template is None ==> (r matches Err(e) && e is IndexTemplateUnreadable),
        index_template is Some && map_template is None ==> (r matches Err(e)
            && e is MapTemplateUnreadable),
        index_template is Some && map_template is Some ==> (r matches Ok(v)
            && v.index@ == render_spec(
            index_template->Some_0@,
            placeholder(),
            scan_fragment(scan_view(scan)),
        ) && v.map@ == map_template->Some_0@),
{
    match (index_template, map_template) {
        (Option::None, _) => Err(StartupError::IndexTemplateUnreadable),
        (Option::Some(_), Option::None) => Err(StartupError::MapTemplateUnreadable),
        (Option::Some(it), Option::Some(mt)) => Ok(assemble(it.as_str(), mt.as_str(), scan)),
    }
}

} // verus!
