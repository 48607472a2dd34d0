use nm_codegen::model::common::Version;
use nm_codegen::model::interface::{ArgDirection, PropertyAccess};
use nm_codegen::parse::common::first_with_class_in_html;
use nm_codegen::parse::interface::{interface_page_from_refentry, parse_interface_page};
use nm_codegen::parse::types::{parse_types_page, types_page_from_refentry};

const TYPES_URL: &str = "https://example.org/docs/nm-dbus-types.html";
const IFACE_URL: &str = "https://example.org/docs/gdbus-org.freedesktop.NetworkManager.Example.html";

fn types_html() -> String {
    [
        "<html><head><title>Types</title></head><body>",
        "<div class=\"refentry\" id=\"nm-dbus-types\">",
        "<div class=\"refnamediv\"><h2><span class=\"refentrytitle\">Types</span></h2>",
        "<p>Types \u{2014} NetworkManager D-Bus types</p></div>",
        "<div class=\"refsect1\"><a name=\"nm-dbus-types.description\"></a><h2>Description</h2>",
        "<p>Enumerations   used by\nNetworkManager.</p></div>",
        "<div class=\"refsect2\"><a name=\"NMCapability\"></a><h3>enum NMCapability</h3>",
        "<p>Names the numbers in the Capabilities property.</p>",
        "<p>Since: 1.6</p>",
        "<div class=\"refsect3\"><a name=\"NMCapability.members\"></a><h4>Values</h4>",
        "<div class=\"informaltable\"><table><tbody>",
        "<tr><td class=\"enum_member_name\"><p>NM_CAPABILITY_TEAM</p></td>",
        "<td class=\"enum_member_value\"><code>1</code></td>",
        "<td class=\"enum_member_description\"><p>Teams can be managed.</p></td></tr>",
        "<tr><td class=\"enum_member_name\"><p>NM_CAPABILITY_OVS</p></td>",
        "<td class=\"enum_member_value\"><code>2</code></td>",
        "<td class=\"enum_member_description\"><p>OVS can be managed.</p><p>Since: 1.24</p></td></tr>",
        "<tr><td class=\"enum_member_name\"><p></p></td>",
        "<td class=\"enum_member_value\"><code>3</code></td></tr>",
        "<tr><td class=\"enum_member_name\"><p>NM_CAPABILITY_NO_VALUE</p></td></tr>",
        "</tbody></table></div></div></div>",
        "<div class=\"refsect2\"><a name=\"NMFlags\"></a><h3>enum NMFlags</h3>",
        "<div class=\"refsect3\"><h4>Values</h4><table><tbody>",
        "<tr><td class=\"enum_member_name\"><p>NM_FLAG_A</p></td>",
        "<td class=\"enum_member_value\"><code>0x1</code></td></tr>",
        "</tbody></table></div></div>",
        "<div class=\"refsect2\"><h3>enum NMEmpty</h3>",
        "<div class=\"refsect3\"><h4>Values</h4></div></div>",
        "<div class=\"refsect2\"><h3>struct NMNotAnEnum</h3>",
        "<div class=\"refsect3\"><h4>Values</h4><table><tbody>",
        "<tr><td class=\"enum_member_name\"><p>X</p></td>",
        "<td class=\"enum_member_value\"><code>1</code></td></tr>",
        "</tbody></table></div></div>",
        "</div></body></html>",
    ]
    .concat()
}

#[test]
fn types_page_reads_description_and_enums() {
    let page = parse_types_page(&types_html(), TYPES_URL).unwrap();
    assert_eq!(page.source_url.as_deref(), Some(TYPES_URL));
    assert_eq!(page.description, vec!["Enumerations used by NetworkManager.".to_string()]);
    let names: Vec<&str> = page.enums.iter().map(|e| e.name.as_str()).collect();
    assert_eq!(names, vec!["NMCapability", "NMFlags"]);
}

#[test]
fn types_page_enum_detail() {
    let page = parse_types_page(&types_html(), TYPES_URL).unwrap();
    let cap = &page.enums[0];
    assert_eq!(cap.source_url.as_deref(), Some("https://example.org/docs/nm-dbus-types.html#NMCapability"));
    assert_eq!(
        cap.description,
        vec![
            "Names the numbers in the Capabilities property.".to_string(),
            String::new(),
            "Since: 1.6".to_string()
        ]
    );
    assert_eq!(cap.since, Some(Version { major: 1, minor: 6 }));
    assert_eq!(cap.deprecated, None);
    assert_eq!(cap.values.len(), 2);
    assert_eq!(cap.values[0].name, "NM_CAPABILITY_TEAM");
    assert_eq!(cap.values[0].value, "1");
    assert_eq!(cap.values[0].description, vec!["Teams can be managed.".to_string()]);
    assert_eq!(cap.values[0].since, None);
    assert_eq!(cap.values[1].name, "NM_CAPABILITY_OVS");
    assert_eq!(cap.values[1].since, Some(Version { major: 1, minor: 24 }));
    assert!(!cap.is_bitflags_by_value());
    assert!(page.enums[1].is_bitflags_by_value());
    assert_eq!(page.enums[1].source_url.as_deref(), Some("https://example.org/docs/nm-dbus-types.html#NMFlags"));
    assert!(page.enums[1].description.is_empty());
}

#[test]
fn types_page_without_refentry_is_empty() {
    let page = parse_types_page("<html><body><p>nothing</p></body></html>", TYPES_URL).unwrap();
    assert_eq!(page.source_url.as_deref(), Some(TYPES_URL));
    assert!(page.description.is_empty());
    assert!(page.enums.is_empty());
}

fn iface_html() -> String {
    [
        "<html><body><div class=\"refentry\">",
        "<div class=\"refnamediv\"><h2><span class=\"refentrytitle\">org.freedesktop.NetworkManager.Example</span></h2></div>",
        "<div class=\"refsect1\"><h2>Description</h2><p>An example interface.</p><p>Since: 1.2</p></div>",
        "<div class=\"refsect1\"><h2>Method Details</h2>",
        "<div class=\"refsect2\"><a name=\"Example.Reload\"></a><h3>The Reload() method</h3>",
        "<pre class=\"programlisting\">Reload (IN  u flags, OUT b ok);</pre>",
        "<p>Reload configuration.</p>",
        "<div class=\"variablelist\"><table><tbody>",
        "<tr><td><p><span class=\"term\"><code>IN u <em>flags</em></code>:</span></p></td><td><p>Flags to use.</p></td></tr>",
        "<tr><td>OUT b ok:</td><td><p>Whether it worked.</p><p></p></td></tr>",
        "<tr><td>u nodirection:</td><td></td></tr>",
        "</tbody></table></div></div>",
        "<div class=\"refsect2\"><h3>The () method</h3></div>",
        "</div>",
        "<div class=\"refsect1\"><h2>Property Details</h2>",
        "<div class=\"refsect2\"><a name=\"Example:State\"></a><h3>The \"State\" property</h3>",
        "<pre class=\"programlisting\">State  readable   u</pre><p>The state.</p>",
        "<p>Deprecated: 1.30</p></div>",
        "<div class=\"refsect2\"><h3>The \"Broken\" property</h3><pre>Broken sometimes u</pre></div>",
        "<div class=\"refsect2\"><h3>The \"Short\" property</h3><pre>Short readable</pre></div>",
        "</div>",
        "<div class=\"refsect1\"><h2>Signal Details</h2>",
        "<div class=\"refsect2\"><h3>The \"StateChanged\" signal</h3><pre>StateChanged (u state);</pre>",
        "<div class=\"variablelist\"><table><tbody><tr><td>u state:</td><td><p>The new state.</p></td></tr></tbody></table></div></div>",
        "</div>",
        "<div class=\"refsect1\"><h2>Other</h2><div class=\"refsect2\"><h3>The Ignored() method</h3></div></div>",
        "</div></body></html>",
    ]
    .concat()
}

#[test]
fn interface_page_identity() {
    let iface = parse_interface_page(&iface_html(), IFACE_URL).unwrap();
    assert_eq!(iface.name, "org.freedesktop.NetworkManager.Example");
    assert_eq!(iface.source_url.as_deref(), Some(IFACE_URL));
    assert_eq!(
        iface.description,
        vec!["An example interface.".to_string(), String::new(), "Since: 1.2".to_string()]
    );
    assert_eq!(iface.since, Some(Version { major: 1, minor: 2 }));
    assert_eq!(iface.deprecated, None);
    assert_eq!(iface.object_path_family_label, None);
    assert_eq!(iface.object_path_pattern, None);
}

#[test]
fn interface_page_methods() {
    let iface = parse_interface_page(&iface_html(), IFACE_URL).unwrap();
    assert_eq!(iface.methods.len(), 1);
    let m = &iface.methods[0];
    assert_eq!(m.name, "Reload");
    assert_eq!(m.source_url.as_deref(), Some("https://example.org/docs/gdbus-org.freedesktop.NetworkManager.Example.html#Example.Reload"));
    assert_eq!(m.description, vec!["Reload configuration.".to_string()]);
    assert_eq!(m.inputs.len(), 1);
    assert_eq!(m.inputs[0].name.as_deref(), Some("flags"));
    assert_eq!(m.inputs[0].signature.as_deref(), Some("u"));
    assert_eq!(m.inputs[0].direction, Some(ArgDirection::In));
    assert_eq!(m.inputs[0].description, vec!["Flags to use.".to_string()]);
    assert_eq!(m.outputs.len(), 1);
    assert_eq!(m.outputs[0].name.as_deref(), Some("ok"));
    assert_eq!(m.outputs[0].signature.as_deref(), Some("b"));
    assert_eq!(m.outputs[0].description, vec!["Whether it worked.".to_string()]);
}

#[test]
fn interface_page_properties() {
    let iface = parse_interface_page(&iface_html(), IFACE_URL).unwrap();
    assert_eq!(iface.properties.len(), 1);
    let p = &iface.properties[0];
    assert_eq!(p.name, "State");
    assert_eq!(p.access, Some(PropertyAccess::Read));
    assert_eq!(p.signature.as_deref(), Some("u"));
    assert_eq!(p.description, vec!["The state.".to_string(), String::new(), "Deprecated: 1.30".to_string()]);
    assert_eq!(p.deprecated, Some(Version { major: 1, minor: 30 }));
    assert_eq!(p.since, None);
    assert_eq!(p.source_url.as_deref(), Some("https://example.org/docs/gdbus-org.freedesktop.NetworkManager.Example.html#Example:State"));
}

#[test]
fn interface_page_signals() {
    let iface = parse_interface_page(&iface_html(), IFACE_URL).unwrap();
    assert_eq!(iface.signals.len(), 1);
    let s = &iface.signals[0];
    assert_eq!(s.name, "StateChanged");
    assert_eq!(s.source_url, None);
    assert!(s.description.is_empty());
    assert_eq!(s.args.len(), 1);
    assert_eq!(s.args[0].direction, None);
    assert_eq!(s.args[0].signature.as_deref(), Some("u"));
    assert_eq!(s.args[0].name.as_deref(), Some("state"));
    assert_eq!(s.args[0].description, vec!["The new state.".to_string()]);
}

#[test]
fn interface_page_without_refentry() {
    let iface = parse_interface_page("<p>x</p>", IFACE_URL).unwrap();
    assert_eq!(iface.name, "");
    assert_eq!(iface.source_url.as_deref(), Some(IFACE_URL));
    assert!(iface.methods.is_empty() && iface.properties.is_empty() && iface.signals.is_empty());
    assert!(iface.description.is_empty());
}

#[test]
fn pages_read_from_a_refentry_tree() {
    let (tdoc, t) = first_with_class_in_html(&types_html(), "refentry").unwrap();
    let page = types_page_from_refentry(&tdoc, t, TYPES_URL);
    assert_eq!(page.description, vec!["Enumerations used by NetworkManager.".to_string()]);
    assert_eq!(page.enums.len(), 2);
    assert_eq!(page.enums[0].name, "NMCapability");

    let (idoc, i) = first_with_class_in_html(&iface_html(), "refentry").unwrap();
    let iface = interface_page_from_refentry(&idoc, i, IFACE_URL);
    assert_eq!(iface.name, "org.freedesktop.NetworkManager.Example");
    assert_eq!(iface.methods.len(), 1);
    assert_eq!(iface.properties.len(), 1);
    assert_eq!(iface.signals.len(), 1);
}

/// Selectors with a descendant part look above the page's `refentry`
/// element too: a `variablelist` around the whole page makes every table
/// row of a method an argument row.
#[test]
fn descendant_selectors_reach_above_the_refentry() {
    let html = [
        "<html><body><div class=\"variablelist\"><div class=\"refentry\">",
        "<div class=\"refsect1\"><h2>Method Details</h2>",
        "<div class=\"refsect2\"><h3>The Foo() method</h3>",
        "<table><tbody><tr><td>IN s x</td><td><p>d</p></td></tr></tbody></table>",
        "</div></div></div></div></body></html>",
    ]
    .concat();
    let iface = parse_interface_page(&html, IFACE_URL).unwrap();
    assert_eq!(iface.methods.len(), 1);
    assert_eq!(iface.methods[0].name, "Foo");
    assert_eq!(iface.methods[0].inputs.len(), 1);
    assert_eq!(iface.methods[0].inputs[0].name.as_deref(), Some("x"));
    assert_eq!(iface.methods[0].inputs[0].description, vec!["d".to_string()]);
}
