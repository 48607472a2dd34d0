use vstd::prelude::*;

use crate::dom::{selector_parses, DocView, Document, SelPart, SelPartView, first_of, sel_view};
use crate::model::interface::{
    ArgDirection, ArgumentDef, ArgumentDefView, InterfaceDef, InterfaceDefView, MethodDef,
    MethodDefView, PropertyAccess, PropertyDef, PropertyDefView, SignalDef, SignalDefView,
    args_view, methods_view, properties_view, signals_view,
};
use crate::parse::common::{
    PageError, children_with_class, class_sel, collect_doc_lines_from_container, container_lines,
    described_lines, direct_children_with_class, extract_since_and_deprecated, find_refentry,
    class_selector_text, first_with_class_tree,
    first_heading_from, first_heading_text, first_tag, page_name, parse_refentry_page_identity,
    parse_section_detail, section_detail, since_and_deprecated, strs, tag_sel,
    without_trailing_blank,
};
use crate::text::{
    chars_of, chars_eq, ends_with, normalize, normalize_text, split_words, starts_with,
    starts_with_exec, str_eq, string_from_chars, string_from_range, strip_end_all,
    strip_end_all_exec, trim, trim_bounds, trim_char, trim_char_bounds, words,
};

verus! {

// ---------------------------------------------------------------------------
// Tokens and titles
// ---------------------------------------------------------------------------

/// `IN` or `OUT`.
pub open spec fn is_direction_word(t: Seq<char>) -> bool {
    t == "IN"@ || t == "OUT"@
}

/// The direction that `IN` or `OUT` names.
pub open spec fn direction_of(t: Seq<char>) -> Option<ArgDirection> {
    if t == "IN"@ {
        Some(ArgDirection::In)
    } else if t == "OUT"@ {
        Some(ArgDirection::Out)
    } else {
        None
    }
}

/// The access that `readable`, `writable` or `readwrite` names.
pub open spec fn access_of(t: Seq<char>) -> Option<PropertyAccess> {
    if t == "readable"@ {
        Some(PropertyAccess::Read)
    } else if t == "writable"@ {
        Some(PropertyAccess::Write)
    } else if t == "readwrite"@ {
        Some(PropertyAccess::ReadWrite)
    } else {
        None
    }
}

/// Whether `token` is `IN` or `OUT`.
pub fn is_direction_token(token: &str) -> (r: bool)
    ensures
        r == is_direction_word(token@),
{
    str_eq(token, "IN") || str_eq(token, "OUT")
}

/// The direction that `IN` or `OUT` names.
pub fn parse_direction_token(token: &str) -> (r: Option<ArgDirection>)
    ensures
        r == direction_of(token@),
{
    if str_eq(token, "IN") {
        Some(ArgDirection::In)
    } else if str_eq(token, "OUT") {
        Some(ArgDirection::Out)
    } else {
        None
    }
}

/// The access that `readable`, `writable` or `readwrite` names.
pub fn parse_property_access_token(token: &str) -> (r: Option<PropertyAccess>)
    ensures
        r == access_of(token@),
{
    if str_eq(token, "readable") {
        Some(PropertyAccess::Read)
    } else if str_eq(token, "writable") {
        Some(PropertyAccess::Write)
    } else if str_eq(token, "readwrite") {
        Some(PropertyAccess::ReadWrite)
    } else {
        None
    }
}

/// What a member heading names: in `The "Name()" kind` the part between
/// `The ` and the kind, without spaces, a trailing `()` and quotes; any
/// other heading as it stands, without surrounding whitespace.
pub open spec fn member_title(raw: Seq<char>, kind: Seq<char>) -> Seq<char> {
    let text = trim(raw);
    if starts_with(text, "The "@) && ends_with(text.skip(4), kind) {
        let inner = text.skip(4).take(text.len() - 4 - kind.len());
        trim_char(trim(strip_end_all(trim(inner), "()"@)), '"')
    } else {
        text
    }
}

/// The member name in a heading such as `The "Reload()" method`.
pub fn normalize_member_title(raw: &str, kind: &str) -> (r: String)
    ensures
        r@ == member_title(raw@, kind@),
{
    let v = chars_of(raw);
    let k = chars_of(kind);
    let the = chars_of("The ");
    proof {
        reveal_strlit("The ");
    }
    assert(v@.subrange(0, v@.len() as int) == v@);
    let (lo, hi) = trim_bounds(v.as_slice(), 0, v.len());
    let ghost text = v@.subrange(lo as int, hi as int);
    let t = crate::parse::common::copy_range(v.as_slice(), lo, hi);
    assert(t@ == text);
    if starts_with_exec(t.as_slice(), the.as_slice()) && t.len() - 4 >= k.len()
        && crate::text::occurs_at_exec(t.as_slice(), k.as_slice(), t.len() - k.len()) {
        assert(text.skip(4).subrange(text.skip(4).len() - k@.len(), text.skip(4).len() as int)
            == text.subrange(text.len() - k@.len(), text.len() as int));
        let inner_end = t.len() - k.len();
        assert(text.skip(4).take(text.len() - 4 - k@.len()) == t@.subrange(4, inner_end as int));
        let (a, b) = trim_bounds(t.as_slice(), 4, inner_end);
        let paren = chars_of("()");
        let b2 = strip_end_all_exec(t.as_slice(), a, b, paren.as_slice());
        let (a3, b3) = trim_bounds(t.as_slice(), a, b2);
        let (a4, b4) = trim_char_bounds(t.as_slice(), a3, b3, '"');
        return string_from_range(t.as_slice(), a4, b4);
    }
    proof {
        if starts_with(text, "The "@) && ends_with(text.skip(4), k@) {
            assert(text.skip(4).subrange(text.skip(4).len() - k@.len(), text.skip(4).len() as int)
                == text.subrange(text.len() - k@.len(), text.len() as int));
        }
    }
    string_from_chars(t.as_slice())
}

/// The three parts of an argument line such as `IN s identifier:`:
/// direction, signature and name.
pub open spec fn term_parts(text: Seq<char>) -> (
    Option<ArgDirection>,
    Option<Seq<char>>,
    Option<Seq<char>>,
) {
    let parts = words(strip_end_all(trim(text), ":"@));
    if parts.len() >= 3 && is_direction_word(parts[0]) {
        (direction_of(parts[0]), Some(parts[1]), Some(parts[2]))
    } else if parts.len() >= 2 {
        (None, Some(parts[0]), Some(parts[1]))
    } else if parts.len() == 1 {
        (None, None, Some(parts[0]))
    } else {
        (None, None, None)
    }
}

/// An optional string as characters.
pub open spec fn opt_str(r: Option<String>) -> Option<Seq<char>> {
    crate::dom::opt_chars(r)
}

/// Splits an argument line into direction, signature and name.
pub fn parse_variablelist_term(text: &str) -> (r: (
    Option<ArgDirection>,
    Option<String>,
    Option<String>,
))
    ensures
        (r.0, opt_str(r.1), opt_str(r.2)) == term_parts(text@),
{
    let v = chars_of(text);
    assert(v@.subrange(0, v@.len() as int) == v@);
    let (lo, hi) = trim_bounds(v.as_slice(), 0, v.len());
    let colon = chars_of(":");
    let end = strip_end_all_exec(v.as_slice(), lo, hi, colon.as_slice());
    let parts = split_words(v.as_slice(), lo, end);
    let ghost pv = parts@.map_values(|w: Vec<char>| w@);
    if parts.len() == 0 {
        return (None, None, None);
    }
    assert(pv[0] == parts@[0]@);
    let first = string_from_chars(parts[0].as_slice());
    if parts.len() >= 3 && is_direction_token(first.as_str()) {
        assert(pv[1] == parts@[1]@);
        assert(pv[2] == parts@[2]@);
        (
            parse_direction_token(first.as_str()),
            Some(string_from_chars(parts[1].as_slice())),
            Some(string_from_chars(parts[2].as_slice())),
        )
    } else if parts.len() >= 2 {
        assert(pv[1] == parts@[1]@);
        (None, Some(first), Some(string_from_chars(parts[1].as_slice())))
    } else {
        (None, None, Some(first))
    }
}

// ---------------------------------------------------------------------------
// Members
// ---------------------------------------------------------------------------

/// The access and signature written in the first `pre` below `section`,
/// as in `Name readable s`: the second and third words.
pub open spec fn pre_fields(d: DocView, section: int) -> Option<(PropertyAccess, Seq<char>)> {
    match first_of(d.select_in(section, tag_sel("pre"@))) {
        None => None,
        Some(pre) => {
            let text = normalize(d.text_of(pre));
            let parts = words(text);
            if text.len() == 0 || parts.len() < 3 {
                None
            } else {
                match access_of(parts[1]) {
                    Some(a) => Some((a, parts[2])),
                    None => None,
                }
            }
        },
    }
}

/// Reads the access and signature of a property section.
pub fn parse_property_pre_fields(doc: &Document, section: usize) -> (r: Option<
    (PropertyAccess, String),
>)
    requires
        doc@.wf(),
        section < doc@.len(),
    ensures
        match r {
            Some((a, sig)) => pre_fields(doc@, section as int) == Some((a, sig@)),
            None => pre_fields(doc@, section as int) is None,
        },
{
    proof {
        reveal_strlit("pre");
    }
    let pre = match first_tag(doc, section, "pre") {
        Some(p) => p,
        None => return None,
    };
    let t = doc.text_of(pre);
    let text = normalize_text(t.as_str());
    if text.as_str().is_empty() {
        return None;
    }
    let v = chars_of(text.as_str());
    assert(v@.subrange(0, v@.len() as int) == v@);
    let parts = split_words(v.as_slice(), 0, v.len());
    let ghost pv = parts@.map_values(|w: Vec<char>| w@);
    if parts.len() < 3 {
        return None;
    }
    assert(pv[1] == parts@[1]@);
    assert(pv[2] == parts@[2]@);
    let token = string_from_chars(parts[1].as_slice());
    let access = match parse_property_access_token(token.as_str()) {
        Some(a) => a,
        None => return None,
    };
    let signature = string_from_chars(parts[2].as_slice());
    Some((access, signature))
}

/// `.variablelist tbody tr`.
pub open spec fn arg_row_sel() -> Seq<SelPartView> {
    seq![SelPartView::Class("variablelist"@), SelPartView::Tag("tbody"@), SelPartView::Tag("tr"@)]
}

/// The argument that a table row describes: its first cell's text split
/// into direction, signature and name, and the documentation lines of its
/// second cell.
pub open spec fn row_arg(d: DocView, row: int) -> Option<ArgumentDefView> {
    let cells = d.select_in(row, tag_sel("td"@));
    if cells.len() < 2 {
        None
    } else {
        let parts = term_parts(normalize(d.text_of(cells[0])));
        Some(
            ArgumentDefView {
                name: parts.2,
                signature: parts.1,
                direction: parts.0,
                description: without_trailing_blank(container_lines(d, d.children(cells[1]))),
            },
        )
    }
}

/// The arguments that the rows among `rows` describe.
pub open spec fn row_args(d: DocView, rows: Seq<int>) -> Seq<ArgumentDefView>
    decreases rows.len(),
{
    if rows.len() == 0 {
        seq![]
    } else {
        let r = row_args(d, rows.drop_last());
        match row_arg(d, rows.last()) {
            Some(a) => r.push(a),
            None => r,
        }
    }
}

/// The arguments listed in a section's argument table.
pub open spec fn section_args(d: DocView, section: int) -> Seq<ArgumentDefView> {
    row_args(d, d.select_in(section, arg_row_sel()))
}

/// Reads the arguments listed in a section's argument table.
pub fn parse_variablelist_args(doc: &Document, section: usize) -> (r: Vec<ArgumentDef>)
    requires
        doc@.wf(),
        section < doc@.len(),
    ensures
        args_view(r@) == section_args(doc@, section as int),
{
    let ghost d = doc@;
    let row_s = vec![
        SelPart::Class("variablelist".to_owned()),
        SelPart::Tag("tbody".to_owned()),
        SelPart::Tag("tr".to_owned()),
    ];
    assert(sel_view(row_s@) =~= arg_row_sel());
    let td_s = vec![SelPart::Tag("td".to_owned())];
    assert(sel_view(td_s@) =~= tag_sel("td"@));
    let rows = doc.select(section, row_s.as_slice());
    let ghost rv = rows@.map_values(|x: usize| x as int);
    let mut args: Vec<ArgumentDef> = Vec::new();
    let mut k: usize = 0;
    while k < rows.len()
        invariant
            doc@.wf(),
            d == doc@,
            k <= rows@.len(),
            rv == rows@.map_values(|x: usize| x as int),
            rv == d.select_in(section as int, arg_row_sel()),
            forall|m: int| 0 <= m < rows@.len() ==> #[trigger] rows@[m] < doc@.len(),
            sel_view(td_s@) == tag_sel("td"@),
            args_view(args@) == row_args(d, rv.take(k as int)),
        decreases rows.len() - k,
    {
        let row = rows[k];
        assert(rv.take(k + 1).drop_last() == rv.take(k as int));
        assert(rv.take(k + 1).last() == row as int);
        let ghost before = args_view(args@);
        let cells = doc.select(row, td_s.as_slice());
        let ghost cv = cells@.map_values(|x: usize| x as int);
        if cells.len() >= 2 {
            assert(cv[0] == cells@[0] as int);
            assert(cv[1] == cells@[1] as int);
            let t = doc.text_of(cells[0]);
            let term_text = normalize_text(t.as_str());
            let description = collect_doc_lines_from_container(doc, cells[1]);
            let (direction, signature, name) = parse_variablelist_term(term_text.as_str());
            let item = ArgumentDef { name, signature, direction, description };
            let ghost iv = item@;
            args.push(item);
            assert(args_view(args@) == before.push(iv));
        }
        k = k + 1;
    }
    assert(rv.take(rows@.len() as int) == rv);
    args
}

/// The arguments of `args` going in the direction `dir`.
pub open spec fn args_with_direction(args: Seq<ArgumentDefView>, dir: ArgDirection) -> Seq<
    ArgumentDefView,
>
    decreases args.len(),
{
    if args.len() == 0 {
        seq![]
    } else {
        let r = args_with_direction(args.drop_last(), dir);
        if args.last().direction == Some(dir) {
            r.push(args.last())
        } else {
            r
        }
    }
}

/// A method's arguments, those going in and those going out; arguments
/// without a direction are left out.
pub fn parse_method_args(doc: &Document, section: usize) -> (r: (Vec<ArgumentDef>, Vec<ArgumentDef>))
    requires
        doc@.wf(),
        section < doc@.len(),
    ensures
        args_view(r.0@) == args_with_direction(section_args(doc@, section as int), ArgDirection::In),
        args_view(r.1@) == args_with_direction(section_args(doc@, section as int), ArgDirection::Out),
{
    let args = parse_variablelist_args(doc, section);
    let ghost av = args_view(args@);
    let mut inputs: Vec<ArgumentDef> = Vec::new();
    let mut outputs: Vec<ArgumentDef> = Vec::new();
    for arg in it: args
        invariant
            it.seq() == args@,
            av == args_view(args@),
            args_view(inputs@) == args_with_direction(av.take(it.index() as int), ArgDirection::In),
            args_view(outputs@) == args_with_direction(av.take(it.index() as int), ArgDirection::Out),
    {
        let ghost i = it.index() as int;
        assert(av.take(i + 1).drop_last() == av.take(i));
        assert(av.take(i + 1).last() == arg@);
        let ghost bi = args_view(inputs@);
        let ghost bo = args_view(outputs@);
        let ghost a = arg@;
        match arg.direction {
            Some(ArgDirection::In) => {
                inputs.push(arg);
                assert(args_view(inputs@) == bi.push(a));
            },
            Some(ArgDirection::Out) => {
                outputs.push(arg);
                assert(args_view(outputs@) == bo.push(a));
            },
            None => {},
        }
    }
    assert(av.take(av.len() as int) == av);
    (inputs, outputs)
}

/// A signal's arguments.
pub fn parse_signal_args(doc: &Document, section: usize) -> (r: Vec<ArgumentDef>)
    requires
        doc@.wf(),
        section < doc@.len(),
    ensures
        args_view(r@) == section_args(doc@, section as int),
{
    parse_variablelist_args(doc, section)
}

/// The method that a `refsect2` section describes.
pub open spec fn method_detail(d: DocView, section: int, base: Seq<char>) -> Option<MethodDefView> {
    match section_detail(d, section, "h3"@, base) {
        None => None,
        Some(det) => {
            let name = member_title(det.title, "method"@);
            if name.len() == 0 {
                None
            } else {
                let args = section_args(d, section);
                Some(
                    MethodDefView {
                        name: name,
                        source_url: det.source_url,
                        description: det.description,
                        since: det.since,
                        deprecated: det.deprecated,
                        inputs: args_with_direction(args, ArgDirection::In),
                        outputs: args_with_direction(args, ArgDirection::Out),
                    },
                )
            }
        },
    }
}

/// The signal that a `refsect2` section describes.
pub open spec fn signal_detail(d: DocView, section: int, base: Seq<char>) -> Option<SignalDefView> {
    match section_detail(d, section, "h3"@, base) {
        None => None,
        Some(det) => {
            let name = member_title(det.title, "signal"@);
            if name.len() == 0 {
                None
            } else {
                Some(
                    SignalDefView {
                        name: name,
                        source_url: det.source_url,
                        description: det.description,
                        since: det.since,
                        deprecated: det.deprecated,
                        args: section_args(d, section),
                    },
                )
            }
        },
    }
}

/// The property that a `refsect2` section describes.
pub open spec fn property_detail(d: DocView, section: int, base: Seq<char>) -> Option<
    PropertyDefView,
> {
    match section_detail(d, section, "h3"@, base) {
        None => None,
        Some(det) => {
            let name = member_title(det.title, "property"@);
            if name.len() == 0 {
                None
            } else {
                match pre_fields(d, section) {
                    None => None,
                    Some((access, signature)) => Some(
                        PropertyDefView {
                            name: name,
                            source_url: det.source_url,
                            description: det.description,
                            since: det.since,
                            deprecated: det.deprecated,
                            signature: Some(signature),
                            access: Some(access),
                        },
                    ),
                }
            }
        },
    }
}

pub open spec fn opt_method(r: Option<MethodDef>) -> Option<MethodDefView> {
    match r {
        Some(m) => Some(m@),
        None => None,
    }
}

pub open spec fn opt_signal(r: Option<SignalDef>) -> Option<SignalDefView> {
    match r {
        Some(m) => Some(m@),
        None => None,
    }
}

pub open spec fn opt_property(r: Option<PropertyDef>) -> Option<PropertyDefView> {
    match r {
        Some(m) => Some(m@),
        None => None,
    }
}

/// Reads the method that a `refsect2` section describes.
pub fn parse_method_detail(doc: &Document, section: usize, base_url: &str) -> (r: Option<MethodDef>)
    requires
        doc@.wf(),
        section < doc@.len(),
    ensures
        opt_method(r) == method_detail(doc@, section as int, base_url@),
{
    proof {
        reveal_strlit("h3");
    }
    let detail = match parse_section_detail(doc, section, "h3", base_url) {
        Some(det) => det,
        None => return None,
    };
    let name = normalize_member_title(detail.title.as_str(), "method");
    if name.as_str().is_empty() {
        return None;
    }
    let (inputs, outputs) = parse_method_args(doc, section);
    Some(
        MethodDef {
            name,
            source_url: detail.source_url,
            description: detail.description,
            since: detail.since,
            deprecated: detail.deprecated,
            inputs,
            outputs,
        },
    )
}

/// Reads the signal that a `refsect2` section describes.
pub fn parse_signal_detail(doc: &Document, section: usize, base_url: &str) -> (r: Option<SignalDef>)
    requires
        doc@.wf(),
        section < doc@.len(),
    ensures
        opt_signal(r) == signal_detail(doc@, section as int, base_url@),
{
    proof {
        reveal_strlit("h3");
    }
    let detail = match parse_section_detail(doc, section, "h3", base_url) {
        Some(det) => det,
        None => return None,
    };
    let name = normalize_member_title(detail.title.as_str(), "signal");
    if name.as_str().is_empty() {
        return None;
    }
    let args = parse_signal_args(doc, section);
    Some(
        SignalDef {
            name,
            source_url: detail.source_url,
            description: detail.description,
            since: detail.since,
            deprecated: detail.deprecated,
            args,
        },
    )
}

/// Reads the property that a `refsect2` section describes.
pub fn parse_property_detail(doc: &Document, section: usize, base_url: &str) -> (r: Option<
    PropertyDef,
>)
    requires
        doc@.wf(),
        section < doc@.len(),
    ensures
        opt_property(r) == property_detail(doc@, section as int, base_url@),
{
    proof {
        reveal_strlit("h3");
    }
    let detail = match parse_section_detail(doc, section, "h3", base_url) {
        Some(det) => det,
        None => return None,
    };
    let name = normalize_member_title(detail.title.as_str(), "property");
    if name.as_str().is_empty() {
        return None;
    }
    let (access, signature) = match parse_property_pre_fields(doc, section) {
        Some(f) => f,
        None => return None,
    };
    Some(
        PropertyDef {
            name,
            source_url: detail.source_url,
            description: detail.description,
            since: detail.since,
            deprecated: detail.deprecated,
            signature: Some(signature),
            access: Some(access),
        },
    )
}

// ---------------------------------------------------------------------------
// Interface pages
// ---------------------------------------------------------------------------

/// The normalized text of a section's first heading.
pub open spec fn section_title(d: DocView, s: int) -> Option<Seq<char>> {
    match first_heading_from(d, s, 1) {
        Some(h) => Some(normalize(d.text_of(h))),
        None => None,
    }
}

/// The methods that the sections among `items` describe.
pub open spec fn methods_in(d: DocView, items: Seq<int>, base: Seq<char>) -> Seq<MethodDefView>
    decreases items.len(),
{
    if items.len() == 0 {
        seq![]
    } else {
        let r = methods_in(d, items.drop_last(), base);
        match method_detail(d, items.last(), base) {
            Some(m) => r.push(m),
            None => r,
        }
    }
}

/// The properties that the sections among `items` describe.
pub open spec fn properties_in(d: DocView, items: Seq<int>, base: Seq<char>) -> Seq<PropertyDefView>
    decreases items.len(),
{
    if items.len() == 0 {
        seq![]
    } else {
        let r = properties_in(d, items.drop_last(), base);
        match property_detail(d, items.last(), base) {
            Some(m) => r.push(m),
            None => r,
        }
    }
}

/// The signals that the sections among `items` describe.
pub open spec fn signals_in(d: DocView, items: Seq<int>, base: Seq<char>) -> Seq<SignalDefView>
    decreases items.len(),
{
    if items.len() == 0 {
        seq![]
    } else {
        let r = signals_in(d, items.drop_last(), base);
        match signal_detail(d, items.last(), base) {
            Some(m) => r.push(m),
            None => r,
        }
    }
}

/// The methods described in the `Method Details` sections among `secs`.
pub open spec fn page_methods(d: DocView, secs: Seq<int>, base: Seq<char>) -> Seq<MethodDefView>
    decreases secs.len(),
{
    if secs.len() == 0 {
        seq![]
    } else {
        let s = secs.last();
        page_methods(d, secs.drop_last(), base) + if section_title(d, s) == Some(
            "Method Details"@,
        ) {
            methods_in(d, children_with_class(d, s, "refsect2"@), base)
        } else {
            seq![]
        }
    }
}

/// The properties described in the `Property Details` sections among `secs`.
pub open spec fn page_properties(d: DocView, secs: Seq<int>, base: Seq<char>) -> Seq<
    PropertyDefView,
>
    decreases secs.len(),
{
    if secs.len() == 0 {
        seq![]
    } else {
        let s = secs.last();
        page_properties(d, secs.drop_last(), base) + if section_title(d, s) == Some(
            "Property Details"@,
        ) {
            properties_in(d, children_with_class(d, s, "refsect2"@), base)
        } else {
            seq![]
        }
    }
}

/// The signals described in the `Signal Details` sections among `secs`.
pub open spec fn page_signals(d: DocView, secs: Seq<int>, base: Seq<char>) -> Seq<SignalDefView>
    decreases secs.len(),
{
    if secs.len() == 0 {
        seq![]
    } else {
        let s = secs.last();
        page_signals(d, secs.drop_last(), base) + if section_title(d, s) == Some(
            "Signal Details"@,
        ) {
            signals_in(d, children_with_class(d, s, "refsect2"@), base)
        } else {
            seq![]
        }
    }
}

/// An interface with nothing known of it but where its page came from.
pub open spec fn empty_interface(base: Seq<char>) -> InterfaceDefView {
    InterfaceDefView {
        name: seq![],
        source_url: Some(base),
        description: seq![],
        since: None,
        deprecated: None,
        object_path_family_label: None,
        object_path_pattern: None,
        methods: seq![],
        properties: seq![],
        signals: seq![],
    }
}

/// The interface whose `refentry` element, if any, is the given node of
/// the given tree.
pub open spec fn interface_page_of(refentry: Option<(DocView, int)>, base: Seq<char>) -> InterfaceDefView {
    match refentry {
        None => empty_interface(base),
        Some((d, r)) => interface_from_refentry(d, r, base),
    }
}

/// The interface whose `refentry` element is node `r` of `d`.
pub open spec fn interface_from_refentry(d: DocView, r: int, base: Seq<char>) -> InterfaceDefView {
    let secs = children_with_class(d, r, "refsect1"@);
    let description = described_lines(d, secs);
    InterfaceDefView {
        name: page_name(d, r),
        source_url: Some(base),
        description: description,
        since: since_and_deprecated(description).0,
        deprecated: since_and_deprecated(description).1,
        object_path_family_label: None,
        object_path_pattern: None,
        methods: page_methods(d, secs, base),
        properties: page_properties(d, secs, base),
        signals: page_signals(d, secs, base),
    }
}

/// The normalized text of a section's first heading.
fn section_title_exec(doc: &Document, s: usize) -> (r: Option<String>)
    requires
        doc@.wf(),
        s < doc@.len(),
    ensures
        opt_str(r) == section_title(doc@, s as int),
{
    first_heading_text(doc, s)
}

/// Reads an interface page that `html` holds; an error only where the
/// selector `.refentry` is refused.
pub fn parse_interface_page(html: &str, base_url: &str) -> (r: Result<InterfaceDef, PageError>)
    ensures
        selector_parses(class_selector_text("refentry"@)) ==> (r matches Ok(iface) && iface@
            == interface_page_of(first_with_class_tree(html@, "refentry"@), base_url@)),
        !selector_parses(class_selector_text("refentry"@)) ==> r == Err::<InterfaceDef, PageError>(
            PageError::InvalidSelector,
        ),
{
    match find_refentry(html) {
        Err(e) => Err(e),
        Ok(None) => {
            let iface = InterfaceDef {
                name: String::new(),
                source_url: Some(base_url.to_owned()),
                description: Vec::new(),
                since: None,
                deprecated: None,
                object_path_family_label: None,
                object_path_pattern: None,
                methods: Vec::new(),
                properties: Vec::new(),
                signals: Vec::new(),
            };
            assert(iface@.description =~= Seq::<Seq<char>>::empty());
            assert(iface@.methods =~= Seq::<MethodDefView>::empty());
            assert(iface@.properties =~= Seq::<PropertyDefView>::empty());
            assert(iface@.signals =~= Seq::<SignalDefView>::empty());
            assert(iface@ =~= empty_interface(base_url@));
            Ok(iface)
        },
        Ok(Some((doc, r))) => Ok(interface_page_from_refentry(&doc, r, base_url)),
    }
}

/// Reads an interface page from its `refentry` element, node `refentry` of
/// `doc`: its name and description, and the methods, properties and
/// signals of its detail sections.
pub fn interface_page_from_refentry(doc: &Document, refentry: usize, base_url: &str) -> (r: InterfaceDef)
    requires
        doc@.wf(),
        refentry < doc@.len(),
    ensures
        r@ == interface_from_refentry(doc@, refentry as int, base_url@),
{
    let ghost d = doc@;
    let (page_name, page_description) = parse_refentry_page_identity(doc, refentry);
    let (page_since, page_deprecated) = extract_since_and_deprecated(page_description.as_slice());
    let mut methods: Vec<MethodDef> = Vec::new();
    let mut properties: Vec<PropertyDef> = Vec::new();
    let mut signals: Vec<SignalDef> = Vec::new();
    let sections = direct_children_with_class(doc, refentry, "refsect1");
    let ghost sv = sections@.map_values(|x: usize| x as int);
    let mut k: usize = 0;
    while k < sections.len()
        invariant
            doc@.wf(),
            d == doc@,
            k <= sections@.len(),
            sv == sections@.map_values(|x: usize| x as int),
            forall|m: int| 0 <= m < sections@.len() ==> #[trigger] sections@[m] < doc@.len(),
            methods_view(methods@) == page_methods(d, sv.take(k as int), base_url@),
            properties_view(properties@) == page_properties(d, sv.take(k as int), base_url@),
            signals_view(signals@) == page_signals(d, sv.take(k as int), base_url@),
        decreases sections.len() - k,
    {
        let section = sections[k];
        assert(sv.take(k + 1).drop_last() == sv.take(k as int));
        assert(sv.take(k + 1).last() == section as int);
        let ghost bm = methods_view(methods@);
        let ghost bp = properties_view(properties@);
        let ghost bs = signals_view(signals@);
        let title = section_title_exec(doc, section);
        let is_methods = match &title {
            Some(t) => str_eq(t.as_str(), "Method Details"),
            None => false,
        };
        let is_properties = match &title {
            Some(t) => str_eq(t.as_str(), "Property Details"),
            None => false,
        };
        let is_signals = match &title {
            Some(t) => str_eq(t.as_str(), "Signal Details"),
            None => false,
        };
        proof {
            reveal_strlit("Method Details");
            reveal_strlit("Property Details");
            reveal_strlit("Signal Details");
            assert("Method Details"@[0] != "Property Details"@[0]);
            assert("Method Details"@[0] != "Signal Details"@[0]);
            assert("Property Details"@[0] != "Signal Details"@[0]);
        }
        assert(!(is_methods && is_properties) && !(is_methods && is_signals) && !(is_properties
            && is_signals));
        let items = direct_children_with_class(doc, section, "refsect2");
        let ghost iv = items@.map_values(|x: usize| x as int);
        let mut m: usize = 0;
        while m < items.len()
            invariant
                doc@.wf(),
                d == doc@,
                m <= items@.len(),
                iv == items@.map_values(|x: usize| x as int),
                !(is_methods && is_properties) && !(is_methods && is_signals) && !(is_properties
                    && is_signals),
                forall|q: int| 0 <= q < items@.len() ==> #[trigger] items@[q] < doc@.len(),
                is_methods ==> methods_view(methods@) == bm + methods_in(
                    d,
                    iv.take(m as int),
                    base_url@,
                ),
                !is_methods ==> methods_view(methods@) == bm,
                is_properties ==> properties_view(properties@) == bp + properties_in(
                    d,
                    iv.take(m as int),
                    base_url@,
                ),
                !is_properties ==> properties_view(properties@) == bp,
                is_signals ==> signals_view(signals@) == bs + signals_in(
                    d,
                    iv.take(m as int),
                    base_url@,
                ),
                !is_signals ==> signals_view(signals@) == bs,
            decreases items.len() - m,
        {
            let item = items[m];
            assert(iv.take(m + 1).drop_last() == iv.take(m as int));
            assert(iv.take(m + 1).last() == item as int);
            if is_methods {
                let ghost before = methods_view(methods@);
                if let Some(method) = parse_method_detail(doc, item, base_url) {
                    let ghost mv = method@;
                    methods.push(method);
                    assert(methods_view(methods@) == before.push(mv));
                }
            } else if is_properties {
                let ghost before = properties_view(properties@);
                if let Some(property) = parse_property_detail(doc, item, base_url) {
                    let ghost pv = property@;
                    properties.push(property);
                    assert(properties_view(properties@) == before.push(pv));
                }
            } else if is_signals {
                let ghost before = signals_view(signals@);
                if let Some(signal) = parse_signal_detail(doc, item, base_url) {
                    let ghost gv = signal@;
                    signals.push(signal);
                    assert(signals_view(signals@) == before.push(gv));
                }
            }
            m = m + 1;
        }
        assert(iv.take(items@.len() as int) == iv);
        assert(bm + Seq::<MethodDefView>::empty() == bm);
        assert(bp + Seq::<PropertyDefView>::empty() == bp);
        assert(bs + Seq::<SignalDefView>::empty() == bs);
        k = k + 1;
    }
    assert(sv.take(sections@.len() as int) == sv);
    InterfaceDef {
        name: page_name,
        source_url: Some(base_url.to_owned()),
        description: page_description,
        since: page_since,
        deprecated: page_deprecated,
        object_path_family_label: None,
        object_path_pattern: None,
        methods,
        properties,
        signals,
    }
}

} // verus!
