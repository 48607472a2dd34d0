use nm_codegen::fetch::spec::{plan_spec_snapshot, snapshot_root, SnapshotError};
use nm_codegen::parse::spec_index::parse_spec_toc;
use nm_codegen::{
    assemble_snapshot, FetchedPage, ObjectPathFamilyRecord, SnapshotManifest, SnapshotPageKind,
    TocInterfaceRecord,
};

const ROOT: &str = "https://example.org/docs/spec.html";

fn toc_html(extra: &str) -> String {
    [
            "<html><body><div class=\"toc\"><dl class=\"toc\">",
            "<dt><span class=\"part\"><a href=\"#devices\">The /org/freedesktop/NetworkManager/Devices/* objects</a></span></dt>",
            "<dd><dl>",
            "<dt><span class=\"refentrytitle\"><a href=\"gdbus-org.freedesktop.NetworkManager.Device.html\">org.freedesktop.NetworkManager.Device</a></span>",
            "<span class=\"refpurpose\"> \u{2014} Device</span></dt>",
            "<dt><span class=\"refentrytitle\">No link here</span><span class=\"refpurpose\">\u{2014} nothing</span></dt>",
            "<dt><span class=\"other\">ignored</span></dt>",
            "</dl></dd>",
            "<dt>Types and more</dt>",
            "<dd><div><dl>",
            "<dt><span class=\"refentrytitle\"><a href=\"nm-dbus-types.html\">Types</a></span><span class=\"refpurpose\"> \u{2014} NetworkManager D-Bus types</span></dt>",
            "<dt><span class=\"refentrytitle\"><a href=\"gdbus-org.freedesktop.NetworkManager.Device.html\">org.freedesktop.NetworkManager.Device</a></span></dt>",
            extra,
            "</dl></div></dd>",
            "<dd>orphan</dd>",
            "</dl></div></body></html>",
    ]
    .concat()
}

#[test]
fn toc_entries_and_interfaces() {
    let toc = parse_spec_toc(&toc_html("")).unwrap();
    assert_eq!(toc.entries.len(), 2);
    let e0 = &toc.entries[0];
    assert_eq!(e0.object_path_label, "The /org/freedesktop/NetworkManager/Devices/* objects");
    assert_eq!(e0.interfaces.len(), 2);
    assert_eq!(e0.interfaces[0].name, "org.freedesktop.NetworkManager.Device");
    assert_eq!(e0.interfaces[0].href, "gdbus-org.freedesktop.NetworkManager.Device.html");
    assert_eq!(e0.interfaces[0].description, "Device");
    assert_eq!(e0.interfaces[1].name, "No link here");
    assert_eq!(e0.interfaces[1].href, "");
    assert_eq!(e0.interfaces[1].description, "nothing");
    let e1 = &toc.entries[1];
    assert_eq!(e1.object_path_label, "Types and more");
    assert_eq!(e1.interfaces.len(), 2);
    assert_eq!(e1.interfaces[0].name, "Types");
    assert_eq!(e1.interfaces[0].description, "NetworkManager D-Bus types");
    assert_eq!(e1.interfaces[1].description, "");
}

#[test]
fn toc_is_required() {
    assert!(parse_spec_toc("<html><body><dl><dt>a</dt><dd>b</dd></dl></body></html>").is_err());
}

#[test]
fn root_url_is_normalised() {
    assert_eq!(snapshot_root("https://example.org").unwrap(), "https://example.org/");
    assert_eq!(snapshot_root("HTTPS://Example.ORG/a/../b.html").unwrap(), "https://example.org/b.html");
    assert!(matches!(snapshot_root("not a url"), Err(SnapshotError::InvalidUrl(u)) if u == "not a url"));
}

#[test]
fn plan_lists_downloads_in_order() {
    let root = snapshot_root(ROOT).unwrap();
    let plan = plan_spec_snapshot(&root, &toc_html("")).unwrap();
    assert!(plan.failure.is_none());
    let fetches: Vec<(String, String)> =
        plan.fetches.iter().map(|f| (f.url.clone(), f.file_name.clone())).collect();
    assert_eq!(
        fetches,
        vec![
            (
                "https://example.org/docs/gdbus-org.freedesktop.NetworkManager.Device.html".to_string(),
                "gdbus-org.freedesktop.NetworkManager.Device.html".to_string()
            ),
            ("https://example.org/docs/nm-dbus-types.html".to_string(), "nm-dbus-types.html".to_string()),
            (
                "https://example.org/docs/gdbus-org.freedesktop.NetworkManager.Device.html".to_string(),
                "gdbus-org.freedesktop.NetworkManager.Device.html".to_string()
            ),
        ]
    );
}

#[test]
fn plan_manifest_pages_are_sorted_and_unique() {
    let root = snapshot_root(ROOT).unwrap();
    let plan = plan_spec_snapshot(&root, &toc_html("")).unwrap();
    let m = &plan.manifest;
    assert_eq!(m.root_url, ROOT);
    let files: Vec<&str> = m.pages.iter().map(|p| p.file_name.as_str()).collect();
    assert_eq!(files, vec!["gdbus-org.freedesktop.NetworkManager.Device.html", "nm-dbus-types.html", "spec.html"]);
    assert_eq!(m.pages[0].kind, SnapshotPageKind::Interface);
    assert_eq!(m.pages[0].title, "org.freedesktop.NetworkManager.Device");
    assert_eq!(m.pages[1].kind, SnapshotPageKind::Types);
    assert_eq!(m.pages[1].source_url, "https://example.org/docs/nm-dbus-types.html");
    assert_eq!(m.pages[2].kind, SnapshotPageKind::SpecIndex);
    assert_eq!(m.pages[2].title, "spec");
    assert_eq!(m.pages[2].source_url, ROOT);
    for w in files.windows(2) {
        assert!(w[0] < w[1]);
    }
}

#[test]
fn plan_manifest_families() {
    let root = snapshot_root(ROOT).unwrap();
    let plan = plan_spec_snapshot(&root, &toc_html("")).unwrap();
    let fams = &plan.manifest.object_path_families;
    assert_eq!(fams.len(), 2);
    assert_eq!(fams[0].label, "The /org/freedesktop/NetworkManager/Devices/* objects");
    assert_eq!(fams[0].path_pattern.as_deref(), Some("/org/freedesktop/NetworkManager/Devices/*"));
    assert_eq!(fams[0].interfaces.len(), 1);
    assert_eq!(fams[0].interfaces[0].name, "org.freedesktop.NetworkManager.Device");
    assert_eq!(fams[0].interfaces[0].file_name, "gdbus-org.freedesktop.NetworkManager.Device.html");
    assert_eq!(fams[0].interfaces[0].description, "Device");
    assert_eq!(fams[1].label, "Types and more");
    assert_eq!(fams[1].path_pattern, None);
    assert_eq!(fams[1].interfaces.len(), 2);
    assert_eq!(fams[1].interfaces[0].href, "nm-dbus-types.html");
}

#[test]
fn plan_stops_at_a_link_that_does_not_resolve() {
    let root = snapshot_root(ROOT).unwrap();
    let extra = "<dt><span class=\"refentrytitle\"><a href=\"http://[bad\">Bad</a></span></dt>\
                 <dt><span class=\"refentrytitle\"><a href=\"later.html\">Later</a></span></dt>";
    let plan = plan_spec_snapshot(&root, &toc_html(extra)).unwrap();
    assert!(matches!(&plan.failure, Some(SnapshotError::JoinFailed(h)) if h == "http://[bad"));
    assert_eq!(plan.fetches.len(), 3);
    assert_eq!(plan.manifest.object_path_families.len(), 1);
}

#[test]
fn plan_stops_at_a_url_without_file_name() {
    let root = snapshot_root(ROOT).unwrap();
    let extra = "<dt><span class=\"refentrytitle\"><a href=\"/\">Root</a></span></dt>";
    let plan = plan_spec_snapshot(&root, &toc_html(extra)).unwrap();
    assert!(matches!(&plan.failure, Some(SnapshotError::NoFileName(u)) if u == "https://example.org/"));
    assert_eq!(plan.fetches.len(), 3);
}

#[test]
fn plan_needs_a_toc() {
    let r = plan_spec_snapshot(ROOT, "<html><body>no toc</body></html>");
    assert!(matches!(r, Err(SnapshotError::MissingToc)));
}

fn fpage(title: &str, file: &str, kind: SnapshotPageKind) -> FetchedPage {
    FetchedPage {
        title: title.to_string(),
        file_name: file.to_string(),
        source_url: format!("https://example.org/docs/{file}"),
        kind,
    }
}

#[test]
fn snapshot_gives_interfaces_their_family() {
    let manifest = SnapshotManifest {
        root_url: ROOT.to_string(),
        pages: vec![
            fpage("org.freedesktop.NetworkManager.Device", "device.html", SnapshotPageKind::Interface),
            fpage("Types", "types.html", SnapshotPageKind::Types),
            fpage("org.freedesktop.Other", "other.html", SnapshotPageKind::Interface),
            fpage("spec", "spec.html", SnapshotPageKind::SpecIndex),
        ],
        object_path_families: vec![ObjectPathFamilyRecord {
            label: "The /org/freedesktop/NetworkManager/Devices/* objects".to_string(),
            path_pattern: Some("/org/freedesktop/NetworkManager/Devices/*".to_string()),
            interfaces: vec![TocInterfaceRecord {
                name: "org.freedesktop.NetworkManager.Device".to_string(),
                href: "device.html".to_string(),
                file_name: "device.html".to_string(),
                description: "Device".to_string(),
            }],
        }],
    };
    let device = "<div class=\"refentry\"><span class=\"refentrytitle\">org.freedesktop.NetworkManager.Device</span></div>";
    let other = "<div class=\"refentry\"><span class=\"refentrytitle\">org.freedesktop.Other</span></div>";
    let types = "<div class=\"refentry\"><div class=\"refsect1\"><h2>Description</h2><p>All types.</p></div></div>";
    let htmls = vec![device.to_string(), types.to_string(), other.to_string(), "ignored".to_string()];
    let snap = assemble_snapshot(&manifest, &htmls).unwrap();
    assert_eq!(snap.interfaces.len(), 2);
    assert_eq!(snap.interfaces[0].name, "org.freedesktop.NetworkManager.Device");
    assert_eq!(
        snap.interfaces[0].object_path_family_label.as_deref(),
        Some("The /org/freedesktop/NetworkManager/Devices/* objects")
    );
    assert_eq!(snap.interfaces[0].object_path_pattern.as_deref(), Some("/org/freedesktop/NetworkManager/Devices/*"));
    assert_eq!(snap.interfaces[0].source_url.as_deref(), Some("https://example.org/docs/device.html"));
    assert_eq!(snap.interfaces[1].name, "org.freedesktop.Other");
    assert_eq!(snap.interfaces[1].object_path_family_label, None);
    assert_eq!(snap.types.description, vec!["All types.".to_string()]);
    assert_eq!(snap.types.source_url.as_deref(), Some("https://example.org/docs/types.html"));
    assert_eq!(snap.object_path_families.len(), 1);
}

#[test]
fn every_recorded_interface_and_download_has_a_page() {
    let root = snapshot_root(ROOT).unwrap();
    let plan = plan_spec_snapshot(&root, &toc_html("")).unwrap();
    let files: Vec<&str> = plan.manifest.pages.iter().map(|p| p.file_name.as_str()).collect();
    for fam in &plan.manifest.object_path_families {
        for rec in &fam.interfaces {
            assert!(files.contains(&rec.file_name.as_str()));
        }
    }
    for f in &plan.fetches {
        assert!(files.contains(&f.file_name.as_str()));
    }
}
