use vstd::prelude::*;

use crate::dom::{opt_chars, selector_parses};
use crate::model::interface::{InterfaceDef, InterfaceDefView};
use crate::model::spec::{
    FetchedPageView, ObjectPathFamilyRecord, ObjectPathFamilyRecordView, ParsedSnapshot,
    ParsedSnapshotView, SnapshotManifest, SnapshotPageKind, families_view, interfaces_view,
    pages_view, records_view,
};
use crate::model::types::{TypesPage, TypesPageView};
use crate::parse::common::{PageError, class_selector_text, first_with_class_tree};
use crate::parse::interface::{interface_page_of, parse_interface_page};
use crate::parse::types::{parse_types_page, types_page_of};

verus! {

/// The label and pattern of the first family that lists an interface named
/// `name`.
pub open spec fn family_for(fams: Seq<ObjectPathFamilyRecordView>, name: Seq<char>) -> Option<
    (Seq<char>, Option<Seq<char>>),
>
    decreases fams.len(),
{
    if fams.len() == 0 {
        None
    } else if exists|j: int|
        0 <= j < fams[0].interfaces.len() && #[trigger] fams[0].interfaces[j].name == name {
        Some((fams[0].label, fams[0].path_pattern))
    } else {
        family_for(fams.drop_first(), name)
    }
}

/// The interface with its family's label and pattern, when a family lists it.
pub open spec fn with_family(i: InterfaceDefView, fams: Seq<ObjectPathFamilyRecordView>) -> InterfaceDefView {
    match family_for(fams, i.name) {
        Some((label, pattern)) => InterfaceDefView {
            object_path_family_label: Some(label),
            object_path_pattern: pattern,
            ..i
        },
        None => i,
    }
}

/// An empty enumerations page.
pub open spec fn no_types() -> TypesPageView {
    TypesPageView { description: seq![], source_url: None, enums: seq![] }
}

/// What the first `k` pages of the manifest give: the last enumerations
/// page read, and the interfaces read, in order.
pub open spec fn snapshot_of(
    pages: Seq<FetchedPageView>,
    htmls: Seq<Seq<char>>,
    fams: Seq<ObjectPathFamilyRecordView>,
    k: int,
) -> (TypesPageView, Seq<InterfaceDefView>)
    decreases k,
{
    if k <= 0 {
        (no_types(), seq![])
    } else {
        let prev = snapshot_of(pages, htmls, fams, k - 1);
        let p = pages[k - 1];
        match p.kind {
            SnapshotPageKind::Types => (
                types_page_of(first_with_class_tree(htmls[k - 1], "refentry"@), p.source_url),
                prev.1,
            ),
            SnapshotPageKind::Interface => (
                prev.0,
                prev.1.push(
                    with_family(
                        interface_page_of(first_with_class_tree(htmls[k - 1], "refentry"@), p.source_url),
                        fams,
                    ),
                ),
            ),
            _ => prev,
        }
    }
}

/// The label and pattern of the first family that lists `name`.
fn find_family(fams: &Vec<ObjectPathFamilyRecord>, name: &String) -> (r: Option<
    (String, Option<String>),
>)
    ensures
        match r {
            Some((l, p)) => family_for(families_view(fams@), name@) == Some((l@, opt_chars(p))),
            None => family_for(families_view(fams@), name@) is None,
        },
{
    let ghost fv = families_view(fams@);
    assert(fv.skip(0) == fv);
    let mut k: usize = 0;
    while k < fams.len()
        invariant
            k <= fams@.len(),
            fv == families_view(fams@),
            family_for(fv, name@) == family_for(fv.skip(k as int), name@),
        decreases fams.len() - k,
    {
        let fam = &fams[k];
        let ghost f = fam@;
        assert(fv.skip(k as int)[0] == f);
        assert(fv.skip(k as int).drop_first() == fv.skip(k + 1));
        let mut m: usize = 0;
        while m < fam.interfaces.len()
            invariant
                m <= fam.interfaces@.len(),
                f == fam@,
                k < fams@.len(),
                fam == &fams@[k as int],
                fv == families_view(fams@),
                fv.skip(k as int)[0] == f,
                family_for(fv, name@) == family_for(fv.skip(k as int), name@),
                forall|j: int| 0 <= j < m ==> #[trigger] f.interfaces[j].name != name@,
            decreases fam.interfaces.len() - m,
        {
            if fam.interfaces[m].name == *name {
                assert(f.interfaces[m as int].name == name@);
                let pattern = match &fam.path_pattern {
                    Some(p) => Some(p.clone()),
                    None => None,
                };
                return Some((fam.label.clone(), pattern));
            }
            m = m + 1;
        }
        k = k + 1;
    }
    None
}

/// Reads the saved pages of a snapshot, `htmls[i]` being the text of the
/// manifest's `i`-th page (used only for enumeration and interface pages):
/// the enumerations of the last enumerations page, every interface with the
/// family that lists it, and the manifest's families; an error where a page
/// is to be read and the selector `.refentry` is refused.
pub fn assemble_snapshot(manifest: &SnapshotManifest, htmls: &Vec<String>) -> (r: Result<
    ParsedSnapshot,
    PageError,
>)
    requires
        htmls@.len() == manifest.pages@.len(),
    ensures
        match r {
            Ok(snap) => (snap@.types, snap@.interfaces) == snapshot_of(
                manifest@.pages,
                htmls@.map_values(|h: String| h@),
                manifest@.object_path_families,
                manifest.pages@.len() as int,
            ) && snap@.object_path_families == manifest@.object_path_families,
            Err(e) => e == PageError::InvalidSelector && !selector_parses(
                class_selector_text("refentry"@),
            ),
        },
        selector_parses(class_selector_text("refentry"@)) ==> r is Ok,
{
    let ghost pv = manifest@.pages;
    let ghost hv = htmls@.map_values(|h: String| h@);
    let ghost fams = manifest@.object_path_families;
    let families = clone_families(&manifest.object_path_families);
    let mut types = TypesPage { description: Vec::new(), source_url: None, enums: Vec::new() };
    let mut interfaces: Vec<InterfaceDef> = Vec::new();
    proof {
        assert(types@.description =~= Seq::<Seq<char>>::empty());
        assert(types@.enums =~= Seq::<crate::model::types::EnumDefView>::empty());
        assert(types@ =~= no_types());
        assert(interfaces_view(interfaces@) =~= Seq::<InterfaceDefView>::empty());
    }
    let mut k: usize = 0;
    while k < manifest.pages.len()
        invariant
            k <= manifest.pages@.len(),
            htmls@.len() == manifest.pages@.len(),
            pv == manifest@.pages,
            hv == htmls@.map_values(|h: String| h@),
            fams == manifest@.object_path_families,
            families_view(families@) == fams,
            (types@, interfaces_view(interfaces@)) == snapshot_of(pv, hv, fams, k as int),
        decreases manifest.pages.len() - k,
    {
        let page = &manifest.pages[k];
        assert(pv[k as int] == page@);
        assert(hv[k as int] == htmls@[k as int]@);
        match page.kind {
            SnapshotPageKind::Types => {
                match parse_types_page(htmls[k].as_str(), page.source_url.as_str()) {
                    Ok(t) => {
                        types = t;
                    },
                    Err(e) => {
                        return Err(e);
                    },
                }
            },
            SnapshotPageKind::Interface => {
                match parse_interface_page(htmls[k].as_str(), page.source_url.as_str()) {
                    Ok(parsed) => {
                        let mut parsed = parsed;
                        let ghost before = interfaces_view(interfaces@);
                        let ghost iv = parsed@;
                        match find_family(&families, &parsed.name) {
                            Some((label, pattern)) => {
                                parsed.object_path_family_label = Some(label);
                                parsed.object_path_pattern = pattern;
                                assert(parsed@ =~= with_family(iv, fams));
                            },
                            None => {},
                        }
                        let ghost nv = parsed@;
                        interfaces.push(parsed);
                        assert(interfaces_view(interfaces@) == before.push(nv));
                    },
                    Err(e) => {
                        return Err(e);
                    },
                }
            },
            _ => {},
        }
        k = k + 1;
    }
    Ok(ParsedSnapshot { types, interfaces, object_path_families: families })
}

/// A copy of the families.
fn clone_families(fams: &Vec<ObjectPathFamilyRecord>) -> (r: Vec<ObjectPathFamilyRecord>)
    ensures
        families_view(r@) == families_view(fams@),
{
    let mut r: Vec<ObjectPathFamilyRecord> = Vec::new();
    let mut k: usize = 0;
    while k < fams.len()
        invariant
            k <= fams@.len(),
            families_view(r@) == families_view(fams@).take(k as int),
        decreases fams.len() - k,
    {
        let f = &fams[k];
        let mut records = Vec::new();
        let mut m: usize = 0;
        while m < f.interfaces.len()
            invariant
                m <= f.interfaces@.len(),
                records_view(records@) == records_view(f.interfaces@).take(m as int),
            decreases f.interfaces.len() - m,
        {
            let i = &f.interfaces[m];
            records.push(
                crate::model::spec::TocInterfaceRecord {
                    name: i.name.clone(),
                    href: i.href.clone(),
                    file_name: i.file_name.clone(),
                    description: i.description.clone(),
                },
            );
            assert(records_view(f.interfaces@).take(m + 1) == records_view(f.interfaces@).take(
                m as int,
            ).push(f.interfaces@[m as int]@));
            m = m + 1;
        }
        assert(records_view(f.interfaces@).take(f.interfaces@.len() as int) == records_view(
            f.interfaces@,
        ));
        let path_pattern = match &f.path_pattern {
            Some(p) => Some(p.clone()),
            None => None,
        };
        r.push(ObjectPathFamilyRecord { label: f.label.clone(), path_pattern, interfaces: records });
        assert(families_view(fams@).take(k + 1) == families_view(fams@).take(k as int).push(
            fams@[k as int]@,
        ));
        k = k + 1;
    }
    assert(families_view(fams@).take(fams@.len() as int) == families_view(fams@));
    r
}

} // verus!
