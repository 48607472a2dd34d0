use vstd::prelude::*;

use crate::dom::{selector_parses, DocView, Document, SelPart, SelPartView, first_of, sel_view};
use crate::model::types::{EnumDef, EnumDefView, EnumValue, EnumValueView, TypesPage, TypesPageView, enums_view, values_view};
use crate::parse::common::{
    PageError, SectionDetailView, children_with_class, class_sel, collect_doc_lines_from_container,
    container_lines, described_lines, direct_children_with_class, extract_since_and_deprecated,
    class_selector_text, find_refentry, first_heading_from, first_with_class_tree, first_heading_text, parse_refentry_page_identity,
    parse_section_detail, section_detail, since_and_deprecated, strs, without_trailing_blank,
};
use crate::text::{chars_of, normalize, normalize_text, starts_with, starts_with_exec, str_eq, string_from_range};

verus! {

// ---------------------------------------------------------------------------
// What the enumerations page holds
// ---------------------------------------------------------------------------

/// The first of `subs` whose first heading reads `Values`.
pub open spec fn values_section(d: DocView, subs: Seq<int>) -> Option<int>
    decreases subs.len(),
{
    if subs.len() == 0 {
        None
    } else {
        match first_heading_from(d, subs[0], 1) {
            Some(h) => if normalize(d.text_of(h)) == "Values"@ {
                Some(subs[0])
            } else {
                values_section(d, subs.drop_first())
            },
            None => values_section(d, subs.drop_first()),
        }
    }
}

/// `tbody tr`.
pub open spec fn row_sel() -> Seq<SelPartView> {
    seq![SelPartView::Tag("tbody"@), SelPartView::Tag("tr"@)]
}

/// `.enum_member_name p`.
pub open spec fn member_name_sel() -> Seq<SelPartView> {
    seq![SelPartView::Class("enum_member_name"@), SelPartView::Tag("p"@)]
}

/// `.enum_member_value code`.
pub open spec fn member_value_sel() -> Seq<SelPartView> {
    seq![SelPartView::Class("enum_member_value"@), SelPartView::Tag("code"@)]
}

/// `.enum_member_description`.
pub open spec fn member_desc_sel() -> Seq<SelPartView> {
    class_sel("enum_member_description"@)
}

/// The normalized text of the first element below `row` that `sel` picks.
pub open spec fn first_text(d: DocView, row: int, sel: Seq<SelPartView>) -> Option<Seq<char>> {
    match first_of(d.select_in(row, sel)) {
        Some(e) => Some(normalize(d.text_of(e))),
        None => None,
    }
}

/// The value that a table row describes: it needs a non-empty name and a
/// value.
pub open spec fn row_value(d: DocView, row: int) -> Option<EnumValueView> {
    let name = match first_text(d, row, member_name_sel()) {
        Some(n) => n,
        None => seq![],
    };
    if name.len() == 0 {
        None
    } else {
        match first_text(d, row, member_value_sel()) {
            None => None,
            Some(value) => {
                let description = match first_of(d.select_in(row, member_desc_sel())) {
                    Some(c) => without_trailing_blank(container_lines(d, d.children(c))),
                    None => seq![],
                };
                Some(
                    EnumValueView {
                        name: name,
                        value: value,
                        description: description,
                        since: since_and_deprecated(description).0,
                        deprecated: since_and_deprecated(description).1,
                    },
                )
            },
        }
    }
}

/// The values described by the rows among `rows`.
pub open spec fn row_values(d: DocView, rows: Seq<int>) -> Seq<EnumValueView>
    decreases rows.len(),
{
    if rows.len() == 0 {
        seq![]
    } else {
        let r = row_values(d, rows.drop_last());
        match row_value(d, rows.last()) {
            Some(v) => r.push(v),
            None => r,
        }
    }
}

/// The enumeration a `refsect2` section describes: its `h3` heading reads
/// `enum NAME` and its `Values` table has at least one value.
pub open spec fn enum_detail(d: DocView, section: int, base: Seq<char>) -> Option<EnumDefView> {
    match section_detail(d, section, "h3"@, base) {
        None => None,
        Some(det) => if !starts_with(det.title, "enum "@) {
            None
        } else {
            match values_section(d, children_with_class(d, section, "refsect3"@)) {
                None => None,
                Some(vs) => {
                    let values = row_values(d, d.select_in(vs, row_sel()));
                    if values.len() == 0 {
                        None
                    } else {
                        Some(
                            EnumDefView {
                                name: det.title.skip(5),
                                description: det.description,
                                values: values,
                                source_url: det.source_url,
                                since: det.since,
                                deprecated: det.deprecated,
                            },
                        )
                    }
                },
            }
        },
    }
}

/// The enumerations that the sections among `sections` describe.
pub open spec fn enums_of(d: DocView, sections: Seq<int>, base: Seq<char>) -> Seq<EnumDefView>
    decreases sections.len(),
{
    if sections.len() == 0 {
        seq![]
    } else {
        let r = enums_of(d, sections.drop_last(), base);
        match enum_detail(d, sections.last(), base) {
            Some(e) => r.push(e),
            None => r,
        }
    }
}

/// The enumerations page whose `refentry` element is node `r` of `d`.
pub open spec fn types_from_refentry(d: DocView, r: int, base: Seq<char>) -> TypesPageView {
    TypesPageView {
        description: described_lines(d, children_with_class(d, r, "refsect1"@)),
        source_url: Some(base),
        enums: enums_of(d, children_with_class(d, r, "refsect2"@), base),
    }
}

/// The enumerations page whose `refentry` element, if any, is the given
/// node of the given tree.
pub open spec fn types_page_of(refentry: Option<(DocView, int)>, base: Seq<char>) -> TypesPageView {
    match refentry {
        None => TypesPageView { description: seq![], source_url: Some(base), enums: seq![] },
        Some((d, r)) => types_from_refentry(d, r, base),
    }
}

// ---------------------------------------------------------------------------
// Reading it
// ---------------------------------------------------------------------------

/// The `refsect3` child of `section` whose heading reads `Values`.
pub fn find_values_section(doc: &Document, section: usize) -> (r: Option<usize>)
    requires
        doc@.wf(),
        section < doc@.len(),
    ensures
        crate::dom::opt_int(r) == values_section(
            doc@,
            children_with_class(doc@, section as int, "refsect3"@),
        ),
        r matches Some(x) ==> x < doc@.len(),
{
    let subs = direct_children_with_class(doc, section, "refsect3");
    let ghost sv = subs@.map_values(|x: usize| x as int);
    let ghost d = doc@;
    assert(sv.skip(0) == sv);
    let mut k: usize = 0;
    while k < subs.len()
        invariant
            doc@.wf(),
            d == doc@,
            k <= subs@.len(),
            sv == subs@.map_values(|x: usize| x as int),
            sv == children_with_class(d, section as int, "refsect3"@),
            forall|m: int| 0 <= m < subs@.len() ==> #[trigger] subs@[m] < doc@.len(),
            values_section(d, sv) == values_section(d, sv.skip(k as int)),
        decreases subs.len() - k,
    {
        let sub = subs[k];
        assert(sv.skip(k as int)[0] == sub as int);
        assert(sv.skip(k as int).drop_first() == sv.skip(k + 1));
        match first_heading_text(doc, sub) {
            Some(title) => {
                if str_eq(title.as_str(), "Values") {
                    return Some(sub);
                }
            },
            None => {},
        }
        k = k + 1;
    }
    None
}

fn sel2(a: SelPart, b: SelPart) -> (r: Vec<SelPart>)
    ensures
        sel_view(r@) == seq![a@, b@],
{
    let r = vec![a, b];
    assert(sel_view(r@) =~= seq![a@, b@]);
    r
}

/// The normalized text of the first element below `row` that `sel` picks.
fn first_text_exec(doc: &Document, row: usize, sel: &[SelPart]) -> (r: Option<String>)
    requires
        doc@.wf(),
        row < doc@.len(),
    ensures
        crate::dom::opt_chars(r) == first_text(doc@, row as int, sel_view(sel@)),
{
    match doc.select_first(row, sel) {
        Some(e) => {
            let t = doc.text_of(e);
            Some(normalize_text(t.as_str()))
        },
        None => None,
    }
}

/// The values listed in the rows of a `Values` table.
pub fn parse_enum_values(doc: &Document, section: usize) -> (r: Vec<EnumValue>)
    requires
        doc@.wf(),
        section < doc@.len(),
    ensures
        values_view(r@) == row_values(doc@, doc@.select_in(section as int, row_sel())),
{
    let ghost d = doc@;
    let row_s = sel2(SelPart::Tag("tbody".to_owned()), SelPart::Tag("tr".to_owned()));
    let name_s = sel2(SelPart::Class("enum_member_name".to_owned()), SelPart::Tag("p".to_owned()));
    let value_s = sel2(
        SelPart::Class("enum_member_value".to_owned()),
        SelPart::Tag("code".to_owned()),
    );
    let desc_s = vec![SelPart::Class("enum_member_description".to_owned())];
    assert(sel_view(desc_s@) =~= member_desc_sel());
    let rows = doc.select(section, row_s.as_slice());
    let ghost rv = rows@.map_values(|x: usize| x as int);
    let mut values: Vec<EnumValue> = Vec::new();
    let mut k: usize = 0;
    while k < rows.len()
        invariant
            doc@.wf(),
            d == doc@,
            k <= rows@.len(),
            rv == rows@.map_values(|x: usize| x as int),
            forall|m: int| 0 <= m < rows@.len() ==> #[trigger] rows@[m] < doc@.len(),
            sel_view(name_s@) == member_name_sel(),
            sel_view(value_s@) == member_value_sel(),
            sel_view(desc_s@) == member_desc_sel(),
            values_view(values@) == row_values(d, rv.take(k as int)),
        decreases rows.len() - k,
    {
        let row = rows[k];
        assert(rv.take(k + 1).drop_last() == rv.take(k as int));
        assert(rv.take(k + 1).last() == row as int);
        let ghost before = values_view(values@);
        let name = match first_text_exec(doc, row, name_s.as_slice()) {
            Some(n) => n,
            None => String::new(),
        };
        if !name.as_str().is_empty() {
            if let Some(value) = first_text_exec(doc, row, value_s.as_slice()) {
                let description = match doc.select_first(row, desc_s.as_slice()) {
                    Some(c) => collect_doc_lines_from_container(doc, c),
                    None => {
                        let v: Vec<String> = Vec::new();
                        assert(strs(v@) =~= Seq::<Seq<char>>::empty());
                        v
                    },
                };
                let (since, deprecated) = extract_since_and_deprecated(description.as_slice());
                let item = EnumValue { name, value, description, since, deprecated };
                let ghost iv = item@;
                values.push(item);
                assert(values_view(values@) == before.push(iv));
            }
        }
        k = k + 1;
    }
    assert(rv.take(rows@.len() as int) == rv);
    values
}

/// An optional enumeration as plain values.
pub open spec fn opt_enum(r: Option<EnumDef>) -> Option<EnumDefView> {
    match r {
        Some(e) => Some(e@),
        None => None,
    }
}

/// The enumeration that a `refsect2` section describes, if it describes one.
pub fn parse_enum_detail(doc: &Document, section: usize, base_url: &str) -> (r: Option<EnumDef>)
    requires
        doc@.wf(),
        section < doc@.len(),
    ensures
        opt_enum(r) == enum_detail(doc@, section as int, base_url@),
{
    proof {
        reveal_strlit("h3");
    }
    let detail = match parse_section_detail(doc, section, "h3", base_url) {
        Some(det) => det,
        None => return None,
    };
    let title = chars_of(detail.title.as_str());
    let prefix = chars_of("enum ");
    if !starts_with_exec(title.as_slice(), prefix.as_slice()) {
        return None;
    }
    proof {
        reveal_strlit("enum ");
    }
    let name = string_from_range(title.as_slice(), 5, title.len());
    assert(name@ == detail.title@.skip(5));
    let values_section = match find_values_section(doc, section) {
        Some(vs) => vs,
        None => return None,
    };
    let values = parse_enum_values(doc, values_section);
    if values.len() == 0 {
        return None;
    }
    Some(
        EnumDef {
            name,
            description: detail.description,
            values,
            source_url: detail.source_url,
            since: detail.since,
            deprecated: detail.deprecated,
        },
    )
}

/// Reads an enumerations page from its `refentry` element, node `refentry`
/// of `doc`: the description and every enumeration that one of its
/// `refsect2` sections describes.
pub fn types_page_from_refentry(doc: &Document, refentry: usize, base_url: &str) -> (r: TypesPage)
    requires
        doc@.wf(),
        refentry < doc@.len(),
    ensures
        r@ == types_from_refentry(doc@, refentry as int, base_url@),
{
    let ghost d = doc@;
    let (_, page_description) = parse_refentry_page_identity(doc, refentry);
    let sections = direct_children_with_class(doc, refentry, "refsect2");
    let ghost sv = sections@.map_values(|x: usize| x as int);
    let mut enums: Vec<EnumDef> = Vec::new();
    let mut k: usize = 0;
    while k < sections.len()
        invariant
            doc@.wf(),
            d == doc@,
            k <= sections@.len(),
            sv == sections@.map_values(|x: usize| x as int),
            forall|m: int| 0 <= m < sections@.len() ==> #[trigger] sections@[m] < doc@.len(),
            enums_view(enums@) == enums_of(d, sv.take(k as int), base_url@),
        decreases sections.len() - k,
    {
        let sec = sections[k];
        assert(sv.take(k + 1).drop_last() == sv.take(k as int));
        assert(sv.take(k + 1).last() == sec as int);
        let ghost before = enums_view(enums@);
        if let Some(e) = parse_enum_detail(doc, sec, base_url) {
            let ghost ev = e@;
            enums.push(e);
            assert(enums_view(enums@) == before.push(ev));
        }
        k = k + 1;
    }
    assert(sv.take(sections@.len() as int) == sv);
    TypesPage { description: page_description, source_url: Some(base_url.to_owned()), enums }
}

/// Reads the enumerations page that `html` holds; an error only where the
/// selector `.refentry` is refused.
pub fn parse_types_page(html: &str, base_url: &str) -> (r: Result<TypesPage, PageError>)
    ensures
        selector_parses(class_selector_text("refentry"@)) ==> (r matches Ok(page) && page@
            == types_page_of(first_with_class_tree(html@, "refentry"@), base_url@)),
        !selector_parses(class_selector_text("refentry"@)) ==> r == Err::<TypesPage, PageError>(
            PageError::InvalidSelector,
        ),
{
    match find_refentry(html) {
        Err(e) => Err(e),
        Ok(None) => Ok(TypesPage::empty(Some(base_url.to_owned()))),
        Ok(Some((doc, r))) => Ok(types_page_from_refentry(&doc, r, base_url)),
    }
}

} // verus!
