use nm_codegen::fetch::spec::{
    classify_toc_interface, dedup_pages_by_file_name, extract_object_path_pattern,
    file_name_from_url, sort_pages_by_file_name,
};
use nm_codegen::{FetchedPage, SnapshotPageKind};

fn page(title: &str, file: &str) -> FetchedPage {
    FetchedPage {
        title: title.to_string(),
        file_name: file.to_string(),
        source_url: format!("https://example.org/{file}"),
        kind: SnapshotPageKind::Other,
    }
}

fn titles(pages: &[FetchedPage]) -> Vec<String> {
    pages.iter().map(|p| p.title.clone()).collect()
}

#[test]
fn toc_titles_are_classified() {
    assert_eq!(classify_toc_interface("Types"), SnapshotPageKind::Types);
    assert_eq!(classify_toc_interface("org.freedesktop.NetworkManager Types"), SnapshotPageKind::Types);
    assert_eq!(classify_toc_interface("org.freedesktop.NetworkManager.Device"), SnapshotPageKind::Interface);
    assert_eq!(classify_toc_interface("org.freedesktop."), SnapshotPageKind::Interface);
    assert_eq!(classify_toc_interface("org.freedesktop"), SnapshotPageKind::Other);
    assert_eq!(classify_toc_interface("Secret Agent"), SnapshotPageKind::Other);
    assert_eq!(classify_toc_interface(""), SnapshotPageKind::Other);
}

#[test]
fn object_path_pattern_of_family_label() {
    assert_eq!(
        extract_object_path_pattern("The /org/freedesktop/NetworkManager/Devices/* objects"),
        Some("/org/freedesktop/NetworkManager/Devices/*".to_string())
    );
    assert_eq!(extract_object_path_pattern("The   /a/*   objects"), Some("/a/*".to_string()));
}

#[test]
fn object_path_pattern_needs_the_whole_shape() {
    assert_eq!(extract_object_path_pattern("The /org/freedesktop/NetworkManager object"), None);
    assert_eq!(extract_object_path_pattern("The /org/freedesktop/NetworkManager objects"), None);
    assert_eq!(extract_object_path_pattern("The org/* objects"), None);
    assert_eq!(extract_object_path_pattern("the /a/* objects"), None);
    assert_eq!(extract_object_path_pattern("The /a/* objects "), None);
    assert_eq!(extract_object_path_pattern(""), None);
}

#[test]
fn file_name_is_last_nonempty_segment() {
    assert_eq!(file_name_from_url("/docs/api/spec.html"), Some("spec.html".to_string()));
    assert_eq!(file_name_from_url("/docs/dir/"), Some("dir".to_string()));
    assert_eq!(file_name_from_url("a//b//"), Some("b".to_string()));
    assert_eq!(file_name_from_url("/"), None);
    assert_eq!(file_name_from_url("///"), None);
    assert_eq!(file_name_from_url(""), None);
}

#[test]
fn sorting_pages_is_stable_by_file_name() {
    let pages = vec![page("c", "c.html"), page("a1", "a.html"), page("b", "b.html"), page("a2", "a.html")];
    let sorted = sort_pages_by_file_name(pages);
    assert_eq!(titles(&sorted), vec!["a1", "a2", "b", "c"]);
}

#[test]
fn dedup_keeps_the_first_of_equal_neighbours() {
    let pages = vec![page("a1", "a.html"), page("a2", "a.html"), page("b", "b.html"), page("a3", "a.html")];
    let out = dedup_pages_by_file_name(pages);
    assert_eq!(titles(&out), vec!["a1", "b", "a3"]);
    assert!(dedup_pages_by_file_name(Vec::new()).is_empty());
}

#[test]
fn sort_then_dedup_leaves_one_page_per_file_name() {
    let pages = vec![page("z", "z.html"), page("y1", "y.html"), page("x", "x.html"), page("y2", "y.html"), page("x2", "x.html")];
    let out = dedup_pages_by_file_name(sort_pages_by_file_name(pages));
    let names: Vec<String> = out.iter().map(|p| p.file_name.clone()).collect();
    assert_eq!(names, vec!["x.html", "y.html", "z.html"]);
    assert_eq!(titles(&out), vec!["x", "y1", "z"]);
    for w in names.windows(2) {
        assert!(w[0] < w[1]);
    }
}
