use nm_codegen::parse::common::{
    direct_children, element_classes, find_anchor_name_before_heading, first_heading_text,
    first_tag_text, first_with_class_in_html, has_any_ref_class,
};
use nm_codegen::parse::spec_index::find_first_anchor_href;

const PAGE: &str = "<html><body>\
     <div class=\"refsect2 b a\"><p>x</p><a name=\"n1\" href=\"h1\">t</a><h3>  The  Title </h3><a name=\"late\"></a></div>\
     <svg><g class=\"y\"><a xlink:href=\"h2\">u</a></g><g class=\"z\"><a xlink:href=\"h2\" href=\"h3\">v</a></g></svg>\
     </body></html>";

#[test]
fn anchors_and_links() {
    let (doc, sect) = first_with_class_in_html(PAGE, "refsect2").unwrap();
    assert_eq!(find_first_anchor_href(&doc, sect).as_deref(), Some("h1"));
    assert_eq!(find_anchor_name_before_heading(&doc, sect).as_deref(), Some("n1"));
}

#[test]
fn namespaced_attributes_are_not_plain_ones() {
    let (y, yi) = first_with_class_in_html(PAGE, "y").unwrap();
    assert_eq!(find_first_anchor_href(&y, yi), None);
    let (z, zi) = first_with_class_in_html(PAGE, "z").unwrap();
    assert_eq!(find_first_anchor_href(&z, zi).as_deref(), Some("h3"));
}

#[test]
fn classes_headings_and_children() {
    let (doc, sect) = first_with_class_in_html(PAGE, "refsect2").unwrap();
    assert_eq!(element_classes(&doc, sect), vec!["a", "b", "refsect2"]);
    assert!(has_any_ref_class(&doc, sect));
    assert_eq!(first_heading_text(&doc, sect).as_deref(), Some("The Title"));
    assert_eq!(first_tag_text(&doc, sect, "p").as_deref(), Some("x"));
    assert_eq!(first_tag_text(&doc, sect, "ul"), None);
    assert_eq!(direct_children(&doc, sect).len(), 4);
    assert!(first_with_class_in_html(PAGE, "missing").is_none());
}

/// The element that the parser creates first comes first, even where the
/// tree puts it after another: a `div` met inside a table is moved before
/// the table, but the table's cell was created earlier.
#[test]
fn first_with_class_follows_creation_order() {
    let html = "<html><body><table><tr><td class=\"k\">cell</td></tr><div class=\"k\">moved</div></table></body></html>";
    let (first, i) = first_with_class_in_html(html, "k").unwrap();
    assert_eq!(nm_codegen::dom::Document::name(&first, i), "td");
}

#[test]
fn class_names_may_begin_with_a_dash() {
    let (doc, i) = first_with_class_in_html("<p class=\"-x\">a</p>", "-x").unwrap();
    assert_eq!(element_classes(&doc, i), vec!["-x"]);
}
