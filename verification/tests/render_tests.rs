use mapsite::render::{render_index, replace_first};

#[test]
fn substitutes_placeholder_once() {
    let out = render_index("<html>{{maps}}</html>", "<tr>x</tr>");
    assert_eq!(out, "<html><tr>x</tr></html>");
}

#[test]
fn replaces_only_first_occurrence() {
    let out = render_index("a{{maps}}b{{maps}}c", "X");
    assert_eq!(out, "aXb{{maps}}c");
}

#[test]
fn absent_placeholder_passes_template_through() {
    let out = render_index("<html>no token</html>", "<tr>x</tr>");
    assert_eq!(out, "<html>no token</html>");
    let out_with_empty_fragment = render_index("<html>no token</html>", "");
    assert_eq!(out_with_empty_fragment, "<html>no token</html>");
}

#[test]
fn empty_fragment_erases_placeholder() {
    assert_eq!(render_index("[{{maps}}]", ""), "[]");
}

#[test]
fn placeholder_at_either_end() {
    assert_eq!(render_index("{{maps}}tail", "X"), "Xtail");
    assert_eq!(render_index("head{{maps}}", "X"), "headX");
    assert_eq!(render_index("{{maps}}", "X"), "X");
}

#[test]
fn replace_first_general_pattern() {
    assert_eq!(replace_first("one two two", "two", "2"), "one 2 two");
    assert_eq!(replace_first("abc", "abc", ""), "");
    assert_eq!(replace_first("", "x", "y"), "");
}

#[test]
fn non_ascii_text_is_kept() {
    assert_eq!(render_index("héllo {{maps}} wörld", "à"), "héllo à wörld");
}
